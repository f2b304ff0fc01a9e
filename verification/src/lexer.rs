use vstd::prelude::*;
use crate::chars::{char_is_alphabetic, char_is_alphanumeric, char_is_whitespace, string_push};
use crate::scan::{
    char_at, comment_end, digits_value, in_class, int_constant, is_hex_digit, run_end, skip,
    word_token, CharClass, LexErrorKind, LexState, lemma_comment_end_bounds, lemma_run_end_bounds,
    lemma_skip_bounds, lemma_scan_token_bounds, digit_value, scan_exponent, scan_fraction, scan_decimal, scan_zero,
    scan_char_constant, string_close, scan_token, Scanned, is_digit, next_token, lex_from, law_next_token_progress,
};
use crate::token::{SpecTokenCode, Token, TokenCode};

verus! {

/// Turns AtomC source text into tokens, one call at a time.
pub struct Lexer {
    input: Vec<char>,
    pos: usize,
    pub line: usize,
}

/// A refusal of the lexer: why, and on which line.
#[derive(Debug, Clone, Copy, PartialEq, Eq, Structural)]
pub struct LexError {
    pub kind: LexErrorKind,
    pub line: usize,
}

impl View for Lexer {
    type V = LexState;

    closed spec fn view(&self) -> LexState {
        LexState { input: self.input@, pos: self.pos as int, line: self.line as int }
    }
}

impl Lexer {
    /// The lexer's own bounds: the position lies in the text, and every
    /// position the lexer looks at fits in a `usize`.
    pub closed spec fn wf(&self) -> bool {
        &&& self.pos <= self.input@.len()
        &&& self.input@.len() + 8 <= usize::MAX
    }

    /// What the lexer's bounds say of its state: the position lies in the
    /// text, and positions a few characters past the text fit in a `usize`.
    /// With `lemma_skip_bounds`, a caller bounds the line of the next token
    /// by the current line plus the characters still to read.
    pub proof fn lemma_bounds(&self)
        requires
            self.wf(),
        ensures
            0 <= self@.pos <= self@.input.len(),
            self@.input.len() + 8 <= usize::MAX,
            0 <= self@.line <= usize::MAX,
    {
    }

    /// A lexer at the start of `source`, on line 1. Its text is `source`
    /// followed by a terminating `'\0'`.
    pub fn new(source: &str) -> (l: Self)
        requires
            source@.len() + 9 <= usize::MAX,
        ensures
            l.wf(),
            l@ == (LexState { input: source@.push('\0'), pos: 0, line: 1 }),
    {
        let mut chars: Vec<char> = Vec::new();
        let iter = source.chars();
        proof {
            vstd::string::axiom_spec_iter(source);
        }
        for c in it: iter
            invariant
                it.seq() == source@,
                chars@ == it.seq().take(it.index() as int),
        {
            chars.push(c);
        }
        assert(chars@ =~= source@);
        chars.push('\0');
        Self { input: chars, pos: 0, line: 1 }
    }

    /// The character at the current position, or `'\0'` past the end.
    fn ch(&self) -> (c: char)
        ensures
            c == char_at(self.input@, self.pos as int),
    {
        if self.pos < self.input.len() {
            self.input[self.pos]
        } else {
            '\0'
        }
    }

    /// Moves to the next character.
    fn consume(&mut self)
        requires
            old(self).pos < usize::MAX,
        ensures
            final(self).pos == old(self).pos + 1,
            final(self).input == old(self).input,
            final(self).line == old(self).line,
    {
        self.pos += 1;
    }

    /// The refusal `kind` on the current line.
    fn err(&self, kind: LexErrorKind) -> (e: LexError)
        ensures
            e.kind == kind,
            e.line == self.line,
    {
        LexError { kind, line: self.line }
    }

    /// The character at `i`, or `'\0'` past the end.
    fn char_at_index(&self, i: usize) -> (c: char)
        ensures
            c == char_at(self.input@, i as int),
    {
        if i < self.input.len() {
            self.input[i]
        } else {
            '\0'
        }
    }

    /// Skips white space and line comments, counting the newlines.
    fn skip_blanks(&mut self)
        requires
            old(self).wf(),
            skip(old(self)@.input, old(self)@.pos, old(self)@.line).1 <= usize::MAX,
        ensures
            final(self).wf(),
            final(self).input == old(self).input,
            (final(self)@.pos, final(self)@.line) == skip(
                old(self)@.input,
                old(self)@.pos,
                old(self)@.line,
            ),
    {
        let ghost target = skip(old(self)@.input, old(self)@.pos, old(self)@.line);
        loop
            invariant
                self.wf(),
                self.input == old(self).input,
                skip(self.input@, self.pos as int, self.line as int) == target,
                target.1 <= usize::MAX,
            ensures
                self.wf(),
                self.input == old(self).input,
                (self.pos as int, self.line as int) == target,
            decreases self.input@.len() - self.pos,
        {
            proof {
                lemma_skip_bounds(self.input@, self.pos as int, self.line as int);
            }
            let c = self.ch();
            if c == '\0' {
                break;
            }
            let ghost p0 = self.pos as int;
            let ghost l0 = self.line as int;
            if char_is_whitespace(c) {
                proof {
                    let l2 = if c == '\n' { self.line + 1 } else { self.line as int };
                    lemma_skip_bounds(self.input@, self.pos + 1, l2);
                }
                if c == '\n' {
                    self.line += 1;
                }
                self.consume();
            } else if c == '/' && self.char_at_index(self.pos + 1) == '/' {
                self.pos = self.pos + 2;
                let ghost start = self.pos as int;
                proof {
                    lemma_comment_end_bounds(self.input@, start);
                }
                loop
                    invariant
                        self.wf(),
                        self.input == old(self).input,
                        start <= self.pos,
                        self.line as int == l0,
                        comment_end(self.input@, self.pos as int) == comment_end(self.input@, start),
                    ensures
                        self.wf(),
                        self.input == old(self).input,
                        self.pos as int == comment_end(self.input@, start),
                        self.line as int == l0,
                    decreases self.input@.len() - self.pos,
                {
                    let d = self.ch();
                    if d == '\n' || d == '\r' || d == '\0' {
                        break;
                    }
                    self.consume();
                }
            } else {
                break;
            }
        }
    }
}


/// Whether `c` belongs to the class `cl`.
fn class_contains(cl: CharClass, c: char) -> (r: bool)
    ensures
        r == in_class(cl, c),
{
    match cl {
        CharClass::Ident => char_is_alphanumeric(c) || c == '_',
        CharClass::Decimal => '0' <= c && c <= '9',
        CharClass::Octal => '0' <= c && c <= '7',
        CharClass::Hex => ('0' <= c && c <= '9') || ('a' <= c && c <= 'f') || ('A' <= c && c <= 'F'),
        CharClass::Binary => c == '0' || c == '1',
    }
}

/// The value of a (hexadecimal, or smaller base) digit.
fn digit_value_exec(c: char) -> (v: i64)
    requires
        is_hex_digit(c),
    ensures
        v == digit_value(c),
        0 <= v < 16,
{
    if '0' <= c && c <= '9' {
        (c as u32 - '0' as u32) as i64
    } else if 'a' <= c && c <= 'f' {
        (c as u32 - 'a' as u32 + 10) as i64
    } else {
        (c as u32 - 'A' as u32 + 10) as i64
    }
}

proof fn lemma_digits_value_nonneg(d: Seq<char>, radix: int)
    requires
        radix >= 1,
        forall|k: int| 0 <= k < d.len() ==> is_hex_digit(#[trigger] d[k]),
    ensures
        digits_value(d, radix) >= 0,
    decreases d.len(),
{
    if d.len() > 0 {
        lemma_digits_value_nonneg(d.drop_last(), radix);
        let v = digits_value(d.drop_last(), radix);
        assert(v * radix >= 0) by (nonlinear_arith)
            requires
                v >= 0,
                radix >= 1,
        ;
        assert(is_hex_digit(d[d.len() - 1]));
    }
}

impl Lexer {
    /// The end of the run of characters of class `cl` that starts at `i`.
    fn scan_run(&self, i: usize, cl: CharClass) -> (e: usize)
        requires
            self.wf(),
            i <= self.input@.len() + 4,
        ensures
            e as int == run_end(self.input@, i as int, cl),
    {
        let mut j = i;
        while j < self.input.len() && class_contains(cl, self.input[j])
            invariant
                self.wf(),
                i <= j,
                j <= self.input@.len() || j == i,
                run_end(self.input@, j as int, cl) == run_end(self.input@, i as int, cl),
            decreases self.input@.len() - j,
        {
            j += 1;
        }
        j
    }

    /// The text from `a` to `b`.
    fn text(&self, a: usize, b: usize) -> (t: String)
        requires
            a <= b <= self.input@.len(),
        ensures
            t@ == self.input@.subrange(a as int, b as int),
    {
        let mut t = String::new();
        let mut j = a;
        while j < b
            invariant
                a <= j <= b <= self.input@.len(),
                t@ == self.input@.subrange(a as int, j as int),
            decreases b - j,
        {
            string_push(&mut t, self.input[j]);
            assert(self.input@.subrange(a as int, j + 1) =~= self.input@.subrange(a as int, j as int).push(self.input@[j as int]));
            j += 1;
        }
        t
    }

    /// The value of the integer constant written with the digits from `a` to
    /// `b` in base `radix`.
    fn int_value(&self, a: usize, b: usize, radix: i64) -> (v: i64)
        requires
            a <= b <= self.input@.len(),
            2 <= radix <= 16,
            forall|k: int| a <= k < b ==> is_hex_digit(#[trigger] self.input@[k]),
        ensures
            v == int_constant(self.input@.subrange(a as int, b as int), radix as int),
    {
        let ghost s = self.input@;
        let mut acc: i64 = 0;
        let mut overflow = false;
        let mut j = a;
        while j < b
            invariant
                a <= j <= b <= s.len(),
                s == self.input@,
                2 <= radix <= 16,
                forall|k: int| a <= k < b ==> is_hex_digit(#[trigger] s[k]),
                !overflow ==> acc == digits_value(s.subrange(a as int, j as int), radix as int),
                overflow ==> digits_value(s.subrange(a as int, j as int), radix as int) > i64::MAX,
            decreases b - j,
        {
            let ghost prev = s.subrange(a as int, j as int);
            let ghost next = s.subrange(a as int, j + 1);
            assert(next.drop_last() =~= prev);
            assert(next.last() == s[j as int]);
            proof {
                assert forall|k: int| 0 <= k < prev.len() implies is_hex_digit(#[trigger] prev[k]) by {
                    assert(prev[k] == s[a + k]);
                }
                lemma_digits_value_nonneg(prev, radix as int);
            }
            let d = digit_value_exec(self.input[j]);
            if overflow {
                let ghost pv = digits_value(prev, radix as int);
                assert(pv * radix >= pv) by (nonlinear_arith)
                    requires
                        pv >= 0,
                        radix >= 2,
                ;
            } else {
                match acc.checked_mul(radix) {
                    Some(m) => match m.checked_add(d) {
                        Some(n) => {
                            acc = n;
                        },
                        None => {
                            overflow = true;
                        },
                    },
                    None => {
                        let ghost pv = digits_value(prev, radix as int);
                        assert(pv * radix + d >= pv * radix);
                        overflow = true;
                    },
                }
            }
            j += 1;
        }
        if overflow {
            0
        } else {
            acc
        }
    }

    /// Whether the text from `a` to `b` is the word `w`.
    fn word_is(&self, a: usize, b: usize, w: &[char]) -> (r: bool)
        requires
            a <= b <= self.input@.len(),
        ensures
            r == (self.input@.subrange(a as int, b as int) == w@),
    {
        if b - a != w.len() {
            return false;
        }
        let mut k: usize = 0;
        while k < w.len()
            invariant
                a <= b <= self.input@.len(),
                b - a == w@.len(),
                k <= w@.len(),
                forall|m: int| 0 <= m < k ==> self.input@[a + m] == w@[m],
            decreases w@.len() - k,
        {
            if self.input[a + k] != w[k] {
                assert(self.input@.subrange(a as int, b as int)[k as int] != w@[k as int]);
                return false;
            }
            k += 1;
        }
        assert(self.input@.subrange(a as int, b as int) =~= w@);
        true
    }

    /// The token of the word from `a` to `b`: a keyword or an identifier.
    fn word_code(&self, a: usize, b: usize) -> (t: TokenCode)
        requires
            a <= b <= self.input@.len(),
        ensures
            t@ == word_token(self.input@.subrange(a as int, b as int)),
    {
        if self.word_is(a, b, &['b', 'r', 'e', 'a', 'k']) {
            TokenCode::BREAK
        } else if self.word_is(a, b, &['c', 'h', 'a', 'r']) {
            TokenCode::CHAR
        } else if self.word_is(a, b, &['d', 'o', 'u', 'b', 'l', 'e']) {
            TokenCode::DOUBLE
        } else if self.word_is(a, b, &['e', 'l', 's', 'e']) {
            TokenCode::ELSE
        } else if self.word_is(a, b, &['f', 'o', 'r']) {
            TokenCode::FOR
        } else if self.word_is(a, b, &['i', 'f']) {
            TokenCode::IF
        } else if self.word_is(a, b, &['i', 'n', 't']) {
            TokenCode::INT
        } else if self.word_is(a, b, &['r', 'e', 't', 'u', 'r', 'n']) {
            TokenCode::RETURN
        } else if self.word_is(a, b, &['s', 't', 'r', 'u', 'c', 't']) {
            TokenCode::STRUCT
        } else if self.word_is(a, b, &['v', 'o', 'i', 'd']) {
            TokenCode::VOID
        } else if self.word_is(a, b, &['w', 'h', 'i', 'l', 'e']) {
            TokenCode::WHILE
        } else {
            TokenCode::ID(self.text(a, b))
        }
    }

    /// The exponent of a real constant that starts at `p`, from `j` on.
    fn scan_exponent(&self, p: usize, j: usize) -> (r: Result<(TokenCode, usize), LexErrorKind>)
        requires
            self.wf(),
            p < j <= self.input@.len() + 1,
        ensures
            scanned(r) == scan_exponent(self.input@, p as int, j as int),
    {
        let c = self.char_at_index(j);
        if c == '+' || c == '-' {
            if is_digit_exec(self.char_at_index(j + 1)) {
                let e = self.scan_run(j + 2, CharClass::Decimal);
                proof {
                    lemma_run_end_bounds(self.input@, j + 2, CharClass::Decimal);
                }
                Ok((TokenCode::CtReal(self.text(p, e)), e))
            } else {
                Err(LexErrorKind::ExpectedDigitAfterExponentSign)
            }
        } else if is_digit_exec(c) {
            let e = self.scan_run(j + 1, CharClass::Decimal);
            proof {
                lemma_run_end_bounds(self.input@, j + 1, CharClass::Decimal);
            }
            Ok((TokenCode::CtReal(self.text(p, e)), e))
        } else {
            Err(LexErrorKind::ExpectedExponent)
        }
    }

    /// The fraction (and exponent) of a real constant that starts at `p`,
    /// from `j` on.
    fn scan_fraction(&self, p: usize, j: usize) -> (r: Result<(TokenCode, usize), LexErrorKind>)
        requires
            self.wf(),
            p < j <= self.input@.len() + 1,
        ensures
            scanned(r) == scan_fraction(self.input@, p as int, j as int),
    {
        if is_digit_exec(self.char_at_index(j)) {
            let e = self.scan_run(j + 1, CharClass::Decimal);
            proof {
                lemma_run_end_bounds(self.input@, j + 1, CharClass::Decimal);
            }
            let c = self.char_at_index(e);
            if c == 'e' || c == 'E' {
                self.scan_exponent(p, e + 1)
            } else {
                Ok((TokenCode::CtReal(self.text(p, e)), e))
            }
        } else {
            Err(LexErrorKind::ExpectedDigitAfterDot)
        }
    }

    /// A number that starts with a digit from `1` to `9` at `p`.
    fn scan_decimal(&self, p: usize) -> (r: Result<(TokenCode, usize), LexErrorKind>)
        requires
            self.wf(),
            p < self.input@.len(),
            is_digit(self.input@[p as int]),
        ensures
            scanned(r) == scan_decimal(self.input@, p as int),
    {
        let e = self.scan_run(p + 1, CharClass::Decimal);
        proof {
            lemma_run_end_bounds(self.input@, p + 1, CharClass::Decimal);
        }
        let c = self.char_at_index(e);
        if c == '.' {
            self.scan_fraction(p, e + 1)
        } else if c == 'e' || c == 'E' {
            self.scan_exponent(p, e + 1)
        } else {
            assert forall|k: int| p <= k < e implies is_hex_digit(#[trigger] self.input@[k]) by {
                if k > p {
                    assert(in_class(CharClass::Decimal, self.input@[k]));
                }
            }
            Ok((TokenCode::CtInt(self.int_value(p, e, 10)), e))
        }
    }

    /// A number that starts with `0` at `p`.
    fn scan_zero(&self, p: usize) -> (r: Result<(TokenCode, usize), LexErrorKind>)
        requires
            self.wf(),
            p < self.input@.len(),
            self.input@[p as int] == '0',
        ensures
            scanned(r) == scan_zero(self.input@, p as int),
    {
        let c = self.char_at_index(p + 1);
        if '0' <= c && c <= '7' {
            let e = self.scan_run(p + 2, CharClass::Octal);
            proof {
                lemma_run_end_bounds(self.input@, p + 2, CharClass::Octal);
            }
            let d = self.char_at_index(e);
            if d == '8' || d == '9' {
                Err(LexErrorKind::InvalidOctalDigit)
            } else {
                assert forall|k: int| p + 1 <= k < e implies is_hex_digit(#[trigger] self.input@[k]) by {
                    if k > p + 1 {
                        assert(in_class(CharClass::Octal, self.input@[k]));
                    }
                }
                Ok((TokenCode::CtInt(self.int_value(p + 1, e, 8)), e))
            }
        } else if c == 'x' || c == 'X' {
            let e = self.scan_run(p + 2, CharClass::Hex);
            proof {
                lemma_run_end_bounds(self.input@, p + 2, CharClass::Hex);
            }
            assert forall|k: int| p + 2 <= k < e implies is_hex_digit(#[trigger] self.input@[k]) by {
                assert(in_class(CharClass::Hex, self.input@[k]));
            }
            Ok((TokenCode::CtInt(self.int_value(p + 2, e, 16)), e))
        } else if c == 'b' || c == 'B' {
            let e = self.scan_run(p + 2, CharClass::Binary);
            proof {
                lemma_run_end_bounds(self.input@, p + 2, CharClass::Binary);
            }
            assert forall|k: int| p + 2 <= k < e implies is_hex_digit(#[trigger] self.input@[k]) by {
                assert(in_class(CharClass::Binary, self.input@[k]));
            }
            Ok((TokenCode::CtInt(self.int_value(p + 2, e, 2)), e))
        } else if c == '8' || c == '9' {
            Err(LexErrorKind::InvalidDigitInOctalConstant)
        } else if c == '.' {
            self.scan_fraction(p, p + 2)
        } else {
            Ok((TokenCode::CtInt(0), p + 1))
        }
    }

    /// A character constant that starts with the quote at `p`.
    fn scan_char_constant(&self, p: usize) -> (r: Result<(TokenCode, usize), LexErrorKind>)
        requires
            self.wf(),
            p < self.input@.len(),
        ensures
            scanned(r) == scan_char_constant(self.input@, p as int),
    {
        let c = self.char_at_index(p + 1);
        if c == '\\' {
            if self.char_at_index(p + 3) == '\'' {
                let e = self.char_at_index(p + 2);
                let v = if e == 'n' {
                    '\n'
                } else if e == 't' {
                    '\t'
                } else if e == 'r' {
                    '\r'
                } else if e == '0' {
                    '\0'
                } else {
                    e
                };
                Ok((TokenCode::CtChar(v), p + 4))
            } else {
                Err(LexErrorKind::UnclosedCharConstant)
            }
        } else if c != '\'' && c != '\0' {
            if self.char_at_index(p + 2) == '\'' {
                Ok((TokenCode::CtChar(c), p + 3))
            } else {
                Err(LexErrorKind::UnclosedCharConstant)
            }
        } else {
            Err(LexErrorKind::EmptyCharConstant)
        }
    }

    /// A string constant that starts with the quote at `p`.
    fn scan_string(&self, p: usize) -> (r: Result<(TokenCode, usize), LexErrorKind>)
        requires
            self.wf(),
            p < self.input@.len(),
        ensures
            scanned(r) == (match string_close(self.input@, p + 1) {
                Some(q) => Ok((SpecTokenCode::CtString(self.input@.subrange(p + 1, q)), q + 1)),
                None => Err(LexErrorKind::UnclosedString),
            }),
    {
        let mut j = p + 1;
        loop
            invariant
                self.wf(),
                p + 1 <= j <= self.input@.len() + 1,
                string_close(self.input@, j as int) == string_close(self.input@, p + 1),
            decreases self.input@.len() + 1 - j,
        {
            let c = self.char_at_index(j);
            if c == '\\' {
                j = j + 2;
            } else if c == '"' {
                return Ok((TokenCode::CtString(self.text(p + 1, j)), j + 1));
            } else if c == '\0' {
                return Err(LexErrorKind::UnclosedString);
            } else {
                j = j + 1;
            }
        }
    }

    /// The token that starts at `p`, where skipping has stopped.
    fn scan_token(&self, p: usize) -> (r: Result<(TokenCode, usize), LexErrorKind>)
        requires
            self.wf(),
            p <= self.input@.len(),
        ensures
            scanned(r) == scan_token(self.input@, p as int),
    {
        let c = self.char_at_index(p);
        if c == '\0' {
            Ok((TokenCode::END, p))
        } else if c == '0' {
            self.scan_zero(p)
        } else if '1' <= c && c <= '9' {
            self.scan_decimal(p)
        } else if char_is_alphabetic(c) || c == '_' {
            let e = self.scan_run(p + 1, CharClass::Ident);
            proof {
                lemma_run_end_bounds(self.input@, p + 1, CharClass::Ident);
            }
            Ok((self.word_code(p, e), e))
        } else if c == '/' {
            Ok((TokenCode::DIV, p + 1))
        } else if c == '"' {
            self.scan_string(p)
        } else if c == '\'' {
            self.scan_char_constant(p)
        } else if c == '|' {
            if self.char_at_index(p + 1) == '|' {
                Ok((TokenCode::OR, p + 2))
            } else {
                Err(LexErrorKind::ExpectedPipe)
            }
        } else if c == '&' {
            if self.char_at_index(p + 1) == '&' {
                Ok((TokenCode::AND, p + 2))
            } else {
                Err(LexErrorKind::ExpectedAmpersand)
            }
        } else if c == '>' || c == '<' || c == '=' || c == '!' {
            let two = self.char_at_index(p + 1) == '=';
            let code = if c == '>' {
                if two { TokenCode::GREATEREQ } else { TokenCode::GREATER }
            } else if c == '<' {
                if two { TokenCode::LESSEQ } else { TokenCode::LESS }
            } else if c == '=' {
                if two { TokenCode::EQUAL } else { TokenCode::ASSIGN }
            } else {
                if two { TokenCode::NOTEQ } else { TokenCode::NOT }
            };
            Ok((code, if two { p + 2 } else { p + 1 }))
        } else {
            let code = match c {
                    '+' => TokenCode::ADD,
                    '-' => TokenCode::SUB,
                    '*' => TokenCode::MUL,
                    '.' => TokenCode::DOT,
                    ';' => TokenCode::SEMICOLON,
                    '(' => TokenCode::LPAR,
                    ')' => TokenCode::RPAR,
                    '{' => TokenCode::LACC,
                    '}' => TokenCode::RACC,
                    '[' => TokenCode::LBRACKET,
                    ']' => TokenCode::RBRACKET,
                    ',' => TokenCode::COMMA,
                _ => {
                    return Err(LexErrorKind::InvalidCharacter(c));
                },
            };
            Ok((code, p + 1))
        }
    }

    /// Reads the next token: skips white space and line comments, then
    /// reads the token that follows them. At the end of the text the token
    /// is `END`, and every further call answers `END` again. The contract
    /// states the answer and the new state exactly by `next_token`.
    pub fn get_next_token(&mut self) -> (r: Result<Token, LexError>)
        requires
            old(self).wf(),
            skip(old(self)@.input, old(self)@.pos, old(self)@.line).1 <= usize::MAX,
        ensures
            final(self).wf(),
            final(self)@ == next_token(old(self)@).1,
            match r {
                Ok(t) => next_token(old(self)@).0 == Ok::<SpecTokenCode, LexErrorKind>(t.code@)
                    && t.line == final(self)@.line,
                Err(e) => next_token(old(self)@).0 == Err::<SpecTokenCode, LexErrorKind>(e.kind)
                    && e.line == final(self)@.line,
            },
    {
        proof {
            lemma_skip_bounds(self.input@, self.pos as int, self.line as int);
        }
        self.skip_blanks();
        let start = self.pos;
        match self.scan_token(start) {
            Ok((code, end)) => {
                proof {
                    lemma_scan_token_bounds(self.input@, start as int);
                }
                self.pos = end;
                Ok(Token { code, line: self.line })
            },
            Err(kind) => Err(self.err(kind)),
        }
    }
}

/// Whether `c` is a decimal digit.
fn is_digit_exec(c: char) -> (r: bool)
    ensures
        r == is_digit(c),
{
    '0' <= c && c <= '9'
}

/// The view of what a scanner returns.
pub open spec fn scanned(r: Result<(TokenCode, usize), LexErrorKind>) -> Scanned {
    match r {
        Ok((t, e)) => Ok((t@, e as int)),
        Err(k) => Err(k),
    }
}

/// The state of a lexer made for `source`.
pub open spec fn start_state(source: Seq<char>) -> LexState {
    LexState { input: source.push('\0'), pos: 0, line: 1 }
}

/// Tokens seen as token values with their lines.
pub open spec fn token_views(v: Seq<Token>) -> Seq<(SpecTokenCode, int)> {
    v.map_values(|t: Token| (t.code@, t.line as int))
}

/// A refusal seen as its kind and line.
pub open spec fn error_view(e: Option<LexError>) -> Option<(LexErrorKind, int)> {
    match e {
        Some(e) => Some((e.kind, e.line as int)),
        None => None,
    }
}

/// Reads all the tokens of `source`, up to and including `END`. Where the
/// lexer refuses the text, the result holds the tokens read before the
/// refusal, and the refusal.
pub fn tokenize(source: &str) -> (r: (Vec<Token>, Option<LexError>))
    requires
        source@.len() + 9 <= usize::MAX,
    ensures
        token_views(r.0@) == lex_from(start_state(source@)).0,
        error_view(r.1) == lex_from(start_state(source@)).1,
{
    let ghost init = start_state(source@);
    let mut lexer = Lexer::new(source);
    let mut out: Vec<Token> = Vec::new();
    assert(token_views(out@) =~= Seq::empty());
    assert(lex_from(init).0 =~= token_views(out@) + lex_from(lexer@).0);
    loop
        invariant
            init == start_state(source@),
            lexer.wf(),
            lexer@.input == init.input,
            lexer@.line + (lexer@.input.len() - lexer@.pos) <= usize::MAX,
            lex_from(init).0 == token_views(out@) + lex_from(lexer@).0,
            lex_from(init).1 == lex_from(lexer@).1,
        decreases lexer@.input.len() - lexer@.pos,
    {
        let ghost before = lexer@;
        proof {
            law_next_token_progress(before);
            lemma_skip_bounds(before.input, before.pos, before.line);
        }
        match lexer.get_next_token() {
            Ok(t) => {
                let end = matches!(t.code, TokenCode::END);
                let ghost tv = (t.code@, t.line as int);
                let ghost old_out = out@;
                out.push(t);
                proof {
                    assert(token_views(out@) =~= token_views(old_out).push(tv));
                    if end {
                        assert(lex_from(before).0 == seq![tv]);
                        assert(lex_from(init).0 =~= token_views(out@));
                    } else {
                        assert(lex_from(before).0 == seq![tv] + lex_from(lexer@).0);
                        assert(lex_from(init).0 =~= token_views(out@) + lex_from(lexer@).0);
                    }
                }
                if end {
                    return (out, None);
                }
            },
            Err(e) => {
                return (out, Some(e));
            },
        }
    }
}

} // verus!
