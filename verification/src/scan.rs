//! The lexical grammar of AtomC, stated over sequences of characters.
//!
//! The source is a sequence `s` of characters; reading past its end yields
//! `'\0'`, the character that also ends the text. Positions are integers.
use vstd::prelude::*;
use crate::chars::{
    string_push,
    is_alphabetic_char, is_alphanumeric_char, is_ascii_digit, is_ascii_letter, is_whitespace_char,
};
use crate::token::SpecTokenCode;

verus! {

/// Why the lexer refused the text at a token.
#[derive(Debug, Clone, Copy, PartialEq, Eq, Structural)]
pub enum LexErrorKind {
    /// A character that starts no token.
    InvalidCharacter(char),
    /// A `.` in a number not followed by a digit.
    ExpectedDigitAfterDot,
    /// An exponent marker not followed by a sign or a digit.
    ExpectedExponent,
    /// An exponent sign not followed by a digit.
    ExpectedDigitAfterExponentSign,
    /// `08` or `09`.
    InvalidDigitInOctalConstant,
    /// An `8` or `9` after the octal digits of a constant.
    InvalidOctalDigit,
    /// `''`, or a quote at the end of the text.
    EmptyCharConstant,
    /// A character constant without its closing quote.
    UnclosedCharConstant,
    /// A string constant without its closing quote.
    UnclosedString,
    /// A single `&`.
    ExpectedAmpersand,
    /// A single `|`.
    ExpectedPipe,
}

/// The text that reports a refusal of kind `k`.
pub open spec fn lex_message(k: LexErrorKind) -> Seq<char> {
    match k {
        LexErrorKind::InvalidCharacter(c) => "Invalid character: "@.push(c),
        LexErrorKind::ExpectedDigitAfterDot => "Expected digit after '.'"@,
        LexErrorKind::ExpectedExponent => "Expected '+', '-', or digit after exponent (e/E)"@,
        LexErrorKind::ExpectedDigitAfterExponentSign => "Expected digit after exponent sign"@,
        LexErrorKind::InvalidDigitInOctalConstant => "Invalid digit in octal constant"@,
        LexErrorKind::InvalidOctalDigit => "Invalid octal digit"@,
        LexErrorKind::EmptyCharConstant => "Empty or invalid character constant"@,
        LexErrorKind::UnclosedCharConstant => "Unclosed char constant"@,
        LexErrorKind::UnclosedString => "Unclosed string literal"@,
        LexErrorKind::ExpectedAmpersand => "Expected '&' after '&'"@,
        LexErrorKind::ExpectedPipe => "Expected '|' after '|'"@,
    }
}

impl LexErrorKind {
    /// The text that reports this refusal.
    pub fn message(&self) -> (m: String)
        ensures
            m@ == lex_message(*self),
    {
        match self {
            LexErrorKind::InvalidCharacter(c) => {
                let mut m = "Invalid character: ".to_owned();
                string_push(&mut m, *c);
                m
            },
            LexErrorKind::ExpectedDigitAfterDot => "Expected digit after '.'".to_owned(),
            LexErrorKind::ExpectedExponent => "Expected '+', '-', or digit after exponent (e/E)".to_owned(),
            LexErrorKind::ExpectedDigitAfterExponentSign => "Expected digit after exponent sign".to_owned(),
            LexErrorKind::InvalidDigitInOctalConstant => "Invalid digit in octal constant".to_owned(),
            LexErrorKind::InvalidOctalDigit => "Invalid octal digit".to_owned(),
            LexErrorKind::EmptyCharConstant => "Empty or invalid character constant".to_owned(),
            LexErrorKind::UnclosedCharConstant => "Unclosed char constant".to_owned(),
            LexErrorKind::UnclosedString => "Unclosed string literal".to_owned(),
            LexErrorKind::ExpectedAmpersand => "Expected '&' after '&'".to_owned(),
            LexErrorKind::ExpectedPipe => "Expected '|' after '|'".to_owned(),
        }
    }
}

/// The state of a lexer: the text (with its terminating `'\0'`), the
/// position of the next character to read, and the current line.
pub struct LexState {
    pub input: Seq<char>,
    pub pos: int,
    pub line: int,
}

/// The character at `i`, or `'\0'` outside the text.
pub open spec fn char_at(s: Seq<char>, i: int) -> char {
    if 0 <= i < s.len() {
        s[i]
    } else {
        '\0'
    }
}

pub open spec fn is_digit(c: char) -> bool {
    '0' <= c && c <= '9'
}

pub open spec fn is_octal_digit(c: char) -> bool {
    '0' <= c && c <= '7'
}

pub open spec fn is_hex_digit(c: char) -> bool {
    is_digit(c) || ('a' <= c && c <= 'f') || ('A' <= c && c <= 'F')
}

pub open spec fn is_binary_digit(c: char) -> bool {
    c == '0' || c == '1'
}

/// A character that continues an identifier. The terminating `'\0'` never does.
pub open spec fn is_ident_char(c: char) -> bool {
    if c <= '\u{7f}' {
        is_ascii_letter(c) || is_ascii_digit(c) || c == '_'
    } else {
        is_alphanumeric_char(c)
    }
}

/// A character that starts an identifier.
pub open spec fn is_ident_start(c: char) -> bool {
    if c <= '\u{7f}' {
        is_ascii_letter(c) || c == '_'
    } else {
        is_alphabetic_char(c)
    }
}

/// The classes of characters that make up the body of a token.
#[derive(Debug, Clone, Copy, PartialEq, Eq, Structural)]
pub enum CharClass {
    Ident,
    Decimal,
    Octal,
    Hex,
    Binary,
}

pub open spec fn in_class(cl: CharClass, c: char) -> bool {
    match cl {
        CharClass::Ident => is_ident_char(c),
        CharClass::Decimal => is_digit(c),
        CharClass::Octal => is_octal_digit(c),
        CharClass::Hex => is_hex_digit(c),
        CharClass::Binary => is_binary_digit(c),
    }
}

/// The end of the longest run of characters of class `cl` that starts at `i`.
pub open spec fn run_end(s: Seq<char>, i: int, cl: CharClass) -> int
    decreases s.len() - i,
{
    if 0 <= i < s.len() && in_class(cl, s[i]) {
        run_end(s, i + 1, cl)
    } else {
        i
    }
}

pub proof fn lemma_run_end_bounds(s: Seq<char>, i: int, cl: CharClass)
    requires
        0 <= i,
    ensures
        i <= run_end(s, i, cl),
        i <= s.len() ==> run_end(s, i, cl) <= s.len(),
        i > s.len() ==> run_end(s, i, cl) == i,
        forall|k: int| i <= k < run_end(s, i, cl) ==> #[trigger] in_class(cl, s[k]),
        !in_class(cl, char_at(s, run_end(s, i, cl))) || run_end(s, i, cl) >= s.len(),
    decreases s.len() - i,
{
    if 0 <= i < s.len() && in_class(cl, s[i]) {
        lemma_run_end_bounds(s, i + 1, cl);
    }
}

/// The position of the first `'\n'`, `'\r'` or `'\0'` at or after `i`: where a
/// line comment that has its text from `i` on ends.
pub open spec fn comment_end(s: Seq<char>, i: int) -> int
    decreases s.len() - i,
{
    if 0 <= i < s.len() && s[i] != '\n' && s[i] != '\r' && s[i] != '\0' {
        comment_end(s, i + 1)
    } else {
        i
    }
}

pub proof fn lemma_comment_end_bounds(s: Seq<char>, i: int)
    requires
        0 <= i,
    ensures
        i <= comment_end(s, i),
        i <= s.len() ==> comment_end(s, i) <= s.len(),
    decreases s.len() - i,
{
    if 0 <= i < s.len() && s[i] != '\n' && s[i] != '\r' && s[i] != '\0' {
        lemma_comment_end_bounds(s, i + 1);
    }
}

/// Skips white space and line comments from `i` on, counting the newlines
/// skipped. Yields the position of the first character of the next token (or
/// of the end of the text) and the line it stands on.
pub open spec fn skip(s: Seq<char>, i: int, line: int) -> (int, int)
    decreases s.len() - i,
{
    if 0 <= i < s.len() && s[i] != '\0' {
        if is_whitespace_char(s[i]) {
            skip(s, i + 1, if s[i] == '\n' { line + 1 } else { line })
        } else if s[i] == '/' && char_at(s, i + 1) == '/' {
            proof {
                lemma_comment_end_bounds(s, i + 2);
            }
            skip(s, comment_end(s, i + 2), line)
        } else {
            (i, line)
        }
    } else {
        (i, line)
    }
}

/// Skipping moves forward, stays in the text, and counts at most one line per
/// character skipped.
pub proof fn lemma_skip_bounds(s: Seq<char>, i: int, line: int)
    requires
        0 <= i <= s.len(),
    ensures
        i <= skip(s, i, line).0 <= s.len(),
        line <= skip(s, i, line).1 <= line + (skip(s, i, line).0 - i),
    decreases s.len() - i,
{
    if 0 <= i < s.len() && s[i] != '\0' {
        if is_whitespace_char(s[i]) {
            lemma_skip_bounds(s, i + 1, if s[i] == '\n' { line + 1 } else { line });
        } else if s[i] == '/' && char_at(s, i + 1) == '/' {
            lemma_comment_end_bounds(s, i + 2);
            lemma_skip_bounds(s, comment_end(s, i + 2), line);
        }
    }
}

/// The token of a word: its keyword, or an identifier.
pub open spec fn word_token(w: Seq<char>) -> SpecTokenCode {
    if w == seq!['b', 'r', 'e', 'a', 'k'] {
        SpecTokenCode::BREAK
    } else if w == seq!['c', 'h', 'a', 'r'] {
        SpecTokenCode::CHAR
    } else if w == seq!['d', 'o', 'u', 'b', 'l', 'e'] {
        SpecTokenCode::DOUBLE
    } else if w == seq!['e', 'l', 's', 'e'] {
        SpecTokenCode::ELSE
    } else if w == seq!['f', 'o', 'r'] {
        SpecTokenCode::FOR
    } else if w == seq!['i', 'f'] {
        SpecTokenCode::IF
    } else if w == seq!['i', 'n', 't'] {
        SpecTokenCode::INT
    } else if w == seq!['r', 'e', 't', 'u', 'r', 'n'] {
        SpecTokenCode::RETURN
    } else if w == seq!['s', 't', 'r', 'u', 'c', 't'] {
        SpecTokenCode::STRUCT
    } else if w == seq!['v', 'o', 'i', 'd'] {
        SpecTokenCode::VOID
    } else if w == seq!['w', 'h', 'i', 'l', 'e'] {
        SpecTokenCode::WHILE
    } else {
        SpecTokenCode::ID(w)
    }
}

/// The value of a digit in base 16 (and so in bases 2, 8 and 10).
pub open spec fn digit_value(c: char) -> int {
    if is_digit(c) {
        c as int - '0' as int
    } else if 'a' <= c && c <= 'f' {
        c as int - 'a' as int + 10
    } else {
        c as int - 'A' as int + 10
    }
}

/// The number that the digits `d` denote in base `radix`.
pub open spec fn digits_value(d: Seq<char>, radix: int) -> int
    decreases d.len(),
{
    if d.len() == 0 {
        0
    } else {
        digits_value(d.drop_last(), radix) * radix + digit_value(d.last())
    }
}

/// The value of an integer constant written with the digits `d` in base
/// `radix`: the number they denote, or `0` where there are no digits or the
/// number does not fit in an `i64`.
pub open spec fn int_constant(d: Seq<char>, radix: int) -> i64 {
    let v = digits_value(d, radix);
    if v <= i64::MAX {
        v as i64
    } else {
        0
    }
}

/// The character that a character constant `'\e'` stands for.
pub open spec fn unescape(e: char) -> char {
    if e == 'n' {
        '\n'
    } else if e == 't' {
        '\t'
    } else if e == 'r' {
        '\r'
    } else if e == '0' {
        '\0'
    } else {
        e
    }
}

/// The token of a character that stands alone.
pub open spec fn single_char_token(c: char) -> Option<SpecTokenCode> {
    if c == '+' {
        Some(SpecTokenCode::ADD)
    } else if c == '-' {
        Some(SpecTokenCode::SUB)
    } else if c == '*' {
        Some(SpecTokenCode::MUL)
    } else if c == '.' {
        Some(SpecTokenCode::DOT)
    } else if c == ';' {
        Some(SpecTokenCode::SEMICOLON)
    } else if c == '(' {
        Some(SpecTokenCode::LPAR)
    } else if c == ')' {
        Some(SpecTokenCode::RPAR)
    } else if c == '{' {
        Some(SpecTokenCode::LACC)
    } else if c == '}' {
        Some(SpecTokenCode::RACC)
    } else if c == '[' {
        Some(SpecTokenCode::LBRACKET)
    } else if c == ']' {
        Some(SpecTokenCode::RBRACKET)
    } else if c == ',' {
        Some(SpecTokenCode::COMMA)
    } else {
        None
    }
}

/// What the lexer makes of the text from `p` on: a token and the position
/// after it, or the reason it refuses the text.
pub type Scanned = Result<(SpecTokenCode, int), LexErrorKind>;

/// The exponent of a real constant that starts at `p`, from the character
/// after the exponent marker (at `j`) on.
pub open spec fn scan_exponent(s: Seq<char>, p: int, j: int) -> Scanned {
    let c = char_at(s, j);
    if c == '+' || c == '-' {
        if is_digit(char_at(s, j + 1)) {
            let e = run_end(s, j + 2, CharClass::Decimal);
            Ok((SpecTokenCode::CtReal(s.subrange(p, e)), e))
        } else {
            Err(LexErrorKind::ExpectedDigitAfterExponentSign)
        }
    } else if is_digit(c) {
        let e = run_end(s, j + 1, CharClass::Decimal);
        Ok((SpecTokenCode::CtReal(s.subrange(p, e)), e))
    } else {
        Err(LexErrorKind::ExpectedExponent)
    }
}

/// The fraction (and exponent) of a real constant that starts at `p`, from
/// the character after the `.` (at `j`) on.
pub open spec fn scan_fraction(s: Seq<char>, p: int, j: int) -> Scanned {
    if is_digit(char_at(s, j)) {
        let e = run_end(s, j + 1, CharClass::Decimal);
        let c = char_at(s, e);
        if c == 'e' || c == 'E' {
            scan_exponent(s, p, e + 1)
        } else {
            Ok((SpecTokenCode::CtReal(s.subrange(p, e)), e))
        }
    } else {
        Err(LexErrorKind::ExpectedDigitAfterDot)
    }
}

/// A number that starts with a digit from `1` to `9` at `p`.
pub open spec fn scan_decimal(s: Seq<char>, p: int) -> Scanned {
    let e = run_end(s, p + 1, CharClass::Decimal);
    let c = char_at(s, e);
    if c == '.' {
        scan_fraction(s, p, e + 1)
    } else if c == 'e' || c == 'E' {
        scan_exponent(s, p, e + 1)
    } else {
        Ok((SpecTokenCode::CtInt(int_constant(s.subrange(p, e), 10)), e))
    }
}

/// A number that starts with `0` at `p`: octal, hexadecimal (`0x`), binary
/// (`0b`), a real (`0.`), or zero itself.
pub open spec fn scan_zero(s: Seq<char>, p: int) -> Scanned {
    let c = char_at(s, p + 1);
    if is_octal_digit(c) {
        let e = run_end(s, p + 2, CharClass::Octal);
        let d = char_at(s, e);
        if d == '8' || d == '9' {
            Err(LexErrorKind::InvalidOctalDigit)
        } else {
            Ok((SpecTokenCode::CtInt(int_constant(s.subrange(p + 1, e), 8)), e))
        }
    } else if c == 'x' || c == 'X' {
        let e = run_end(s, p + 2, CharClass::Hex);
        Ok((SpecTokenCode::CtInt(int_constant(s.subrange(p + 2, e), 16)), e))
    } else if c == 'b' || c == 'B' {
        let e = run_end(s, p + 2, CharClass::Binary);
        Ok((SpecTokenCode::CtInt(int_constant(s.subrange(p + 2, e), 2)), e))
    } else if c == '8' || c == '9' {
        Err(LexErrorKind::InvalidDigitInOctalConstant)
    } else if c == '.' {
        scan_fraction(s, p, p + 2)
    } else {
        Ok((SpecTokenCode::CtInt(0), p + 1))
    }
}

/// A character constant that starts with the quote at `p`.
pub open spec fn scan_char_constant(s: Seq<char>, p: int) -> Scanned {
    let c = char_at(s, p + 1);
    if c == '\\' {
        if char_at(s, p + 3) == '\'' {
            Ok((SpecTokenCode::CtChar(unescape(char_at(s, p + 2))), p + 4))
        } else {
            Err(LexErrorKind::UnclosedCharConstant)
        }
    } else if c != '\'' && c != '\0' {
        if char_at(s, p + 2) == '\'' {
            Ok((SpecTokenCode::CtChar(c), p + 3))
        } else {
            Err(LexErrorKind::UnclosedCharConstant)
        }
    } else {
        Err(LexErrorKind::EmptyCharConstant)
    }
}

/// The position of the quote that closes a string whose text continues at
/// `j`; a backslash takes the character after it into the text.
pub open spec fn string_close(s: Seq<char>, j: int) -> Option<int>
    decreases s.len() + 1 - j,
{
    if 0 <= j < s.len() {
        if s[j] == '\\' {
            string_close(s, j + 2)
        } else if s[j] == '"' {
            Some(j)
        } else if s[j] == '\0' {
            None
        } else {
            string_close(s, j + 1)
        }
    } else {
        None
    }
}

/// A two-character operator `c1 c2` at `p`, or `one` alone when the second
/// character is not `c2`.
pub open spec fn scan_pair(
    s: Seq<char>,
    p: int,
    c2: char,
    two: SpecTokenCode,
    one: SpecTokenCode,
) -> Scanned {
    if char_at(s, p + 1) == c2 {
        Ok((two, p + 2))
    } else {
        Ok((one, p + 1))
    }
}

/// The token that starts at `p`, where skipping has stopped.
pub open spec fn scan_token(s: Seq<char>, p: int) -> Scanned {
    let c = char_at(s, p);
    if c == '\0' {
        Ok((SpecTokenCode::END, p))
    } else if c == '0' {
        scan_zero(s, p)
    } else if '1' <= c && c <= '9' {
        scan_decimal(s, p)
    } else if is_ident_start(c) {
        let e = run_end(s, p + 1, CharClass::Ident);
        Ok((word_token(s.subrange(p, e)), e))
    } else if c == '/' {
        Ok((SpecTokenCode::DIV, p + 1))
    } else if c == '"' {
        match string_close(s, p + 1) {
            Some(q) => Ok((SpecTokenCode::CtString(s.subrange(p + 1, q)), q + 1)),
            None => Err(LexErrorKind::UnclosedString),
        }
    } else if c == '\'' {
        scan_char_constant(s, p)
    } else if c == '|' {
        if char_at(s, p + 1) == '|' {
            Ok((SpecTokenCode::OR, p + 2))
        } else {
            Err(LexErrorKind::ExpectedPipe)
        }
    } else if c == '&' {
        if char_at(s, p + 1) == '&' {
            Ok((SpecTokenCode::AND, p + 2))
        } else {
            Err(LexErrorKind::ExpectedAmpersand)
        }
    } else if c == '>' {
        scan_pair(s, p, '=', SpecTokenCode::GREATEREQ, SpecTokenCode::GREATER)
    } else if c == '<' {
        scan_pair(s, p, '=', SpecTokenCode::LESSEQ, SpecTokenCode::LESS)
    } else if c == '=' {
        scan_pair(s, p, '=', SpecTokenCode::EQUAL, SpecTokenCode::ASSIGN)
    } else if c == '!' {
        scan_pair(s, p, '=', SpecTokenCode::NOTEQ, SpecTokenCode::NOT)
    } else {
        match single_char_token(c) {
            Some(t) => Ok((t, p + 1)),
            None => Err(LexErrorKind::InvalidCharacter(c)),
        }
    }
}

/// One step of the lexer from state `st`: what it answers, and the state
/// after. Blanks and comments are skipped first; the answer is the token that
/// follows them, on the line where it starts. On a refusal the position stays
/// at the start of the refused token.
pub open spec fn next_token(st: LexState) -> (Result<SpecTokenCode, LexErrorKind>, LexState) {
    let (p, line) = skip(st.input, st.pos, st.line);
    match scan_token(st.input, p) {
        Ok((t, e)) => (Ok(t), LexState { input: st.input, pos: e, line }),
        Err(k) => (Err(k), LexState { input: st.input, pos: p, line }),
    }
}

/// A token that is read ends in the text, after where it starts unless it
/// is `END`.
pub proof fn lemma_scan_token_bounds(s: Seq<char>, p: int)
    requires
        0 <= p <= s.len(),
    ensures
        scan_token(s, p) matches Ok((t, e)) ==> {
            &&& p <= e <= s.len()
            &&& (t == SpecTokenCode::END <==> e == p)
            &&& (t == SpecTokenCode::END <==> char_at(s, p) == '\0')
        },
{
    let c = char_at(s, p);
    if c != '\0' {
        lemma_run_end_bounds(s, p + 1, CharClass::Ident);
        lemma_run_end_bounds(s, p + 1, CharClass::Decimal);
        lemma_run_end_bounds(s, p + 2, CharClass::Octal);
        lemma_run_end_bounds(s, p + 2, CharClass::Hex);
        lemma_run_end_bounds(s, p + 2, CharClass::Binary);
        lemma_string_close_bounds(s, p + 1);
        let e = run_end(s, p + 1, CharClass::Decimal);
        lemma_fraction_bounds(s, p, e + 1);
        lemma_exponent_bounds(s, p, e + 1);
        lemma_fraction_bounds(s, p, p + 2);
    }
}

proof fn lemma_exponent_bounds(s: Seq<char>, p: int, j: int)
    requires
        0 <= p < j <= s.len() + 1,
    ensures
        scan_exponent(s, p, j) matches Ok((t, e)) ==> p < e <= s.len() && t != SpecTokenCode::END,
{
    lemma_run_end_bounds(s, j + 1, CharClass::Decimal);
    lemma_run_end_bounds(s, j + 2, CharClass::Decimal);
}

proof fn lemma_fraction_bounds(s: Seq<char>, p: int, j: int)
    requires
        0 <= p < j <= s.len() + 1,
    ensures
        scan_fraction(s, p, j) matches Ok((t, e)) ==> p < e <= s.len() && t != SpecTokenCode::END,
{
    lemma_run_end_bounds(s, j + 1, CharClass::Decimal);
    let e = run_end(s, j + 1, CharClass::Decimal);
    if is_digit(char_at(s, j)) && e < s.len() {
        lemma_exponent_bounds(s, p, e + 1);
    }
}

proof fn lemma_string_close_bounds(s: Seq<char>, j: int)
    requires
        0 <= j,
    ensures
        string_close(s, j) matches Some(q) ==> j <= q < s.len() && s[q] == '"',
    decreases s.len() + 1 - j,
{
    if 0 <= j < s.len() {
        if s[j] == '\\' {
            lemma_string_close_bounds(s, j + 2);
        } else if s[j] != '"' && s[j] != '\0' {
            lemma_string_close_bounds(s, j + 1);
        }
    }
}

/// Law: one step of the lexer stays in the text, counts at most one line per
/// character it passes, and passes at least one character unless it answers
/// `END` or refuses.
pub proof fn law_next_token_progress(st: LexState)
    requires
        0 <= st.pos <= st.input.len(),
    ensures
        next_token(st).1.input == st.input,
        st.pos <= next_token(st).1.pos <= st.input.len(),
        st.line <= next_token(st).1.line <= st.line + (next_token(st).1.pos - st.pos),
        next_token(st).0 matches Ok(t) ==> (t == SpecTokenCode::END <==> next_token(st).1.pos
            == skip(st.input, st.pos, st.line).0),
        next_token(st).0 matches Ok(t) && t != SpecTokenCode::END ==> next_token(st).1.pos
            > st.pos,
{
    lemma_skip_bounds(st.input, st.pos, st.line);
    let (p, line) = skip(st.input, st.pos, st.line);
    lemma_scan_token_bounds(st.input, p);
}

/// The tokens the lexer reads from state `st` on, each with its line, up to
/// and including `END`; and the refusal that stopped it, if one did.
pub open spec fn lex_from(st: LexState) -> (Seq<(SpecTokenCode, int)>, Option<(LexErrorKind, int)>)
    decreases st.input.len() - st.pos,
{
    if 0 <= st.pos <= st.input.len() {
        let (r, next) = next_token(st);
        match r {
            Err(k) => (seq![], Some((k, next.line))),
            Ok(t) => {
                if t == SpecTokenCode::END {
                    (seq![(t, next.line)], None)
                } else {
                    proof {
                        law_next_token_progress(st);
                    }
                    let rest = lex_from(next);
                    (seq![(t, next.line)] + rest.0, rest.1)
                }
            },
        }
    } else {
        (seq![], None)
    }
}

/// Law: skipping is idempotent: where skipping stops, skipping again stops
/// at once.
pub proof fn law_skip_idempotent(s: Seq<char>, i: int, line: int)
    requires
        0 <= i <= s.len(),
    ensures
        skip(s, skip(s, i, line).0, skip(s, i, line).1) == skip(s, i, line),
    decreases s.len() - i,
{
    if 0 <= i < s.len() && s[i] != '\0' {
        if is_whitespace_char(s[i]) {
            law_skip_idempotent(s, i + 1, if s[i] == '\n' { line + 1 } else { line });
        } else if s[i] == '/' && char_at(s, i + 1) == '/' {
            lemma_comment_end_bounds(s, i + 2);
            law_skip_idempotent(s, comment_end(s, i + 2), line);
        }
    }
}

/// Law: white space and comments before a token do not matter: reading from
/// a state gives what reading gives after they are skipped.
pub proof fn law_blanks_do_not_matter(st: LexState)
    requires
        0 <= st.pos <= st.input.len(),
    ensures
        ({
            let (p, line) = skip(st.input, st.pos, st.line);
            next_token(st) == next_token(LexState { input: st.input, pos: p, line })
        }),
{
    law_skip_idempotent(st.input, st.pos, st.line);
}

/// Law: at the end of the text the lexer answers `END` and stays where it
/// is, so every later call answers `END` again.
pub proof fn law_end_is_sticky(st: LexState)
    requires
        0 <= st.pos <= st.input.len(),
        next_token(st).0 == Ok::<SpecTokenCode, LexErrorKind>(SpecTokenCode::END),
    ensures
        next_token(next_token(st).1) == next_token(st),
{
    let (p, line) = skip(st.input, st.pos, st.line);
    lemma_skip_bounds(st.input, st.pos, st.line);
    lemma_scan_token_bounds(st.input, p);
    let next = next_token(st).1;
    assert(next.pos == p && next.line == line);
    assert(char_at(st.input, p) == '\0');
    assert(skip(st.input, p, line) == (p, line));
}

/// The number of newlines in `t`.
pub open spec fn newlines(t: Seq<char>) -> int
    decreases t.len(),
{
    if t.len() == 0 {
        0
    } else {
        newlines(t.drop_last()) + if t.last() == '\n' { 1int } else { 0 }
    }
}

proof fn lemma_newlines_split(s: Seq<char>, i: int, j: int, k: int)
    requires
        0 <= i <= j <= k <= s.len(),
    ensures
        newlines(s.subrange(i, k)) == newlines(s.subrange(i, j)) + newlines(s.subrange(j, k)),
    decreases k - j,
{
    if k > j {
        lemma_newlines_split(s, i, j, k - 1);
        assert(s.subrange(i, k).drop_last() =~= s.subrange(i, k - 1));
        assert(s.subrange(j, k).drop_last() =~= s.subrange(j, k - 1));
    } else {
        assert(s.subrange(j, k) =~= Seq::<char>::empty());
        assert(s.subrange(i, k) =~= s.subrange(i, j));
    }
}

proof fn lemma_newlines_one(s: Seq<char>, i: int)
    requires
        0 <= i < s.len(),
    ensures
        newlines(s.subrange(i, i + 1)) == if s[i] == '\n' { 1int } else { 0 },
{
    let t = s.subrange(i, i + 1);
    assert(t.drop_last() =~= Seq::<char>::empty());
    assert(t.last() == s[i]);
    assert(newlines(t.drop_last()) == 0);
}

proof fn lemma_comment_has_no_newline(s: Seq<char>, i: int)
    requires
        0 <= i <= s.len(),
    ensures
        newlines(s.subrange(i, comment_end(s, i))) == 0,
    decreases s.len() - i,
{
    lemma_comment_end_bounds(s, i);
    let e = comment_end(s, i);
    if 0 <= i < s.len() && s[i] != '\n' && s[i] != '\r' && s[i] != '\0' {
        lemma_comment_has_no_newline(s, i + 1);
        lemma_comment_end_bounds(s, i + 1);
        lemma_newlines_split(s, i, i + 1, e);
        lemma_newlines_one(s, i);
    } else {
        assert(s.subrange(i, e) =~= Seq::<char>::empty());
    }
}

/// Law: the lexer counts lines by the newlines it skips: the line where
/// skipping stops is the line it started on plus the newlines it passed.
pub proof fn law_lines_count_newlines(s: Seq<char>, i: int, line: int)
    requires
        0 <= i <= s.len(),
    ensures
        skip(s, i, line).1 == line + newlines(s.subrange(i, skip(s, i, line).0)),
    decreases s.len() - i,
{
    lemma_skip_bounds(s, i, line);
    let e = skip(s, i, line).0;
    if 0 <= i < s.len() && s[i] != '\0' {
        if is_whitespace_char(s[i]) {
            let l2 = if s[i] == '\n' { line + 1 } else { line };
            law_lines_count_newlines(s, i + 1, l2);
            lemma_skip_bounds(s, i + 1, l2);
            lemma_newlines_split(s, i, i + 1, e);
            lemma_newlines_one(s, i);
        } else if s[i] == '/' && char_at(s, i + 1) == '/' {
            let c = comment_end(s, i + 2);
            lemma_comment_end_bounds(s, i + 2);
            law_lines_count_newlines(s, c, line);
            lemma_skip_bounds(s, c, line);
            lemma_comment_has_no_newline(s, i + 2);
            lemma_newlines_split(s, i, i + 2, c);
            lemma_newlines_split(s, i, c, e);
            lemma_newlines_split(s, i, i + 1, i + 2);
            lemma_newlines_one(s, i);
            lemma_newlines_one(s, i + 1);
        } else {
            assert(s.subrange(i, e) =~= Seq::<char>::empty());
        }
    } else {
        assert(s.subrange(i, e) =~= Seq::<char>::empty());
    }
}

/// Law: reading a whole text ends in `END` unless the lexer refuses it, and
/// `END` comes only at the end.
pub proof fn law_lexing_ends_with_end(st: LexState)
    requires
        0 <= st.pos <= st.input.len(),
    ensures
        lex_from(st).1 is None ==> lex_from(st).0.len() > 0
            && lex_from(st).0.last().0 == SpecTokenCode::END,
        forall|k: int| 0 <= k < lex_from(st).0.len() - 1 ==> #[trigger] lex_from(st).0[k].0 != SpecTokenCode::END,
    decreases st.input.len() - st.pos,
{
    let (r, next) = next_token(st);
    law_next_token_progress(st);
    match r {
        Err(_) => {},
        Ok(t) => {
            if t != SpecTokenCode::END {
                law_lexing_ends_with_end(next);
                let rest = lex_from(next);
                let all = lex_from(st).0;
                assert(all == seq![(t, next.line)] + rest.0);
                assert forall|k: int| 0 <= k < all.len() - 1 implies #[trigger] all[k].0 != SpecTokenCode::END by {
                    if k > 0 {
                        assert(all[k] == rest.0[k - 1]);
                    }
                }
                if rest.1 is None {
                    assert(all.last() == rest.0.last());
                }
            }
        },
    }
}

/// The state of the lexer after `n` calls from `st`.
pub open spec fn steps(st: LexState, n: nat) -> LexState
    decreases n,
{
    if n == 0 {
        st
    } else {
        steps(next_token(st).1, (n - 1) as nat)
    }
}

/// Whether the call from `st` ends the reading: it answers `END` or refuses.
pub open spec fn stops(st: LexState) -> bool {
    next_token(st).0 is Err || next_token(st).0 == Ok::<SpecTokenCode, LexErrorKind>(SpecTokenCode::END)
}

/// A token other than `END` never takes in the `'\0'` that ends the text.
proof fn lemma_token_before_end(s: Seq<char>, p: int)
    requires
        0 <= p < s.len(),
        s[s.len() - 1] == '\0',
    ensures
        scan_token(s, p) matches Ok((t, e)) ==> (t != SpecTokenCode::END ==> e < s.len()),
{
    lemma_scan_token_bounds(s, p);
    let n = s.len();
    assert(char_at(s, n - 1) == '\0');
    lemma_run_end_before_end(s, p + 1, CharClass::Ident);
    lemma_run_end_before_end(s, p + 1, CharClass::Decimal);
    lemma_run_end_before_end(s, p + 2, CharClass::Octal);
    lemma_run_end_before_end(s, p + 2, CharClass::Hex);
    lemma_run_end_before_end(s, p + 2, CharClass::Binary);
    lemma_string_close_bounds(s, p + 1);
    let e = run_end(s, p + 1, CharClass::Decimal);
    lemma_run_end_bounds(s, p + 1, CharClass::Decimal);
    lemma_fraction_before_end(s, p, e + 1);
    lemma_exponent_before_end(s, p, e + 1);
    lemma_fraction_before_end(s, p, p + 2);
}

proof fn lemma_run_end_before_end(s: Seq<char>, i: int, cl: CharClass)
    requires
        0 <= i,
        s.len() > 0,
        s[s.len() - 1] == '\0',
    ensures
        i < s.len() ==> run_end(s, i, cl) < s.len(),
    decreases s.len() - i,
{
    if 0 <= i < s.len() && in_class(cl, s[i]) {
        lemma_run_end_before_end(s, i + 1, cl);
    }
}

proof fn lemma_exponent_before_end(s: Seq<char>, p: int, j: int)
    requires
        0 <= p < j <= s.len() + 1,
        s.len() > 0,
        s[s.len() - 1] == '\0',
    ensures
        scan_exponent(s, p, j) matches Ok((t, e)) ==> e < s.len(),
{
    lemma_run_end_before_end(s, j + 1, CharClass::Decimal);
    lemma_run_end_before_end(s, j + 2, CharClass::Decimal);
}

proof fn lemma_fraction_before_end(s: Seq<char>, p: int, j: int)
    requires
        0 <= p < j <= s.len() + 1,
        s.len() > 0,
        s[s.len() - 1] == '\0',
    ensures
        scan_fraction(s, p, j) matches Ok((t, e)) ==> e < s.len(),
{
    lemma_run_end_before_end(s, j + 1, CharClass::Decimal);
    lemma_run_end_bounds(s, j + 1, CharClass::Decimal);
    let e = run_end(s, j + 1, CharClass::Decimal);
    if is_digit(char_at(s, j)) && e < s.len() {
        lemma_exponent_before_end(s, p, e + 1);
    }
}

/// Law: reading a text that ends with its terminating `'\0'`, one of the
/// first `n + 1` calls answers `END` or refuses, where `n` is the number of
/// characters before that `'\0'` still to read; every call before it reads
/// a token other than `END`. The result is the number of calls before it.
pub proof fn law_end_within(st: LexState) -> (k: nat)
    requires
        0 <= st.pos < st.input.len(),
        st.input[st.input.len() - 1] == '\0',
    ensures
        k < st.input.len() - st.pos,
        stops(steps(st, k)),
        forall|j: nat| j < k ==> !stops(#[trigger] steps(st, j)),
    decreases st.input.len() - st.pos,
{
    if stops(st) {
        0
    } else {
        law_next_token_progress(st);
        lemma_skip_bounds(st.input, st.pos, st.line);
        let (p, line) = skip(st.input, st.pos, st.line);
        if p == st.input.len() {
            // Skipping never passes the terminating `'\0'`.
            lemma_skip_stops_before_end(st.input, st.pos, st.line);
        }
        lemma_token_before_end(st.input, p);
        let next = next_token(st).1;
        let k = law_end_within(next);
        assert forall|j: nat| j < k + 1 implies !stops(#[trigger] steps(st, j)) by {
            if j > 0 {
                assert(steps(st, j) == steps(next, (j - 1) as nat));
            }
        }
        assert(steps(st, k + 1) == steps(next, k));
        k + 1
    }
}

/// Skipping from inside a text that ends with `'\0'` stops inside it.
proof fn lemma_skip_stops_before_end(s: Seq<char>, i: int, line: int)
    requires
        0 <= i < s.len(),
        s[s.len() - 1] == '\0',
    ensures
        skip(s, i, line).0 < s.len(),
    decreases s.len() - i,
{
    if s[i] != '\0' {
        if is_whitespace_char(s[i]) {
            lemma_skip_stops_before_end(s, i + 1, if s[i] == '\n' { line + 1 } else { line });
        } else if s[i] == '/' && char_at(s, i + 1) == '/' {
            lemma_comment_end_bounds(s, i + 2);
            lemma_comment_end_before_end(s, i + 2);
            lemma_skip_stops_before_end(s, comment_end(s, i + 2), line);
        }
    }
}

proof fn lemma_comment_end_before_end(s: Seq<char>, i: int)
    requires
        0 <= i < s.len(),
        s[s.len() - 1] == '\0',
    ensures
        comment_end(s, i) < s.len(),
    decreases s.len() - i,
{
    if s[i] != '\n' && s[i] != '\r' && s[i] != '\0' {
        lemma_comment_end_before_end(s, i + 1);
    }
}

/// The newlines inside the tokens that the first `n` calls from `st` read;
/// only a string or a character constant can hold one.
pub open spec fn newlines_in_tokens(st: LexState, n: nat) -> int
    decreases n,
{
    if n == 0 {
        0
    } else {
        let p = skip(st.input, st.pos, st.line).0;
        newlines(st.input.subrange(p, next_token(st).1.pos)) + newlines_in_tokens(
            next_token(st).1,
            (n - 1) as nat,
        )
    }
}

/// Law: over any number of calls, the line never goes down, and it is the
/// line the reading started on plus the newlines read, less those inside
/// tokens (in string and character constants). So where no token holds a
/// newline, the line is one more than the newlines before the position from
/// a lexer's start, and each token's line is the line where it starts.
pub proof fn law_lines_over_calls(st: LexState, n: nat)
    requires
        0 <= st.pos <= st.input.len(),
    ensures
        steps(st, n).input == st.input,
        st.pos <= steps(st, n).pos <= st.input.len(),
        st.line <= steps(st, n).line,
        steps(st, n).line == st.line + newlines(st.input.subrange(st.pos, steps(st, n).pos))
            - newlines_in_tokens(st, n),
    decreases n,
{
    if n == 0 {
        assert(st.input.subrange(st.pos, st.pos) =~= Seq::<char>::empty());
    } else {
        let s = st.input;
        law_next_token_progress(st);
        lemma_skip_bounds(s, st.pos, st.line);
        law_lines_count_newlines(s, st.pos, st.line);
        let p = skip(s, st.pos, st.line).0;
        lemma_scan_token_bounds(s, p);
        let next = next_token(st).1;
        law_lines_over_calls(next, (n - 1) as nat);
        let end = steps(next, (n - 1) as nat).pos;
        assert(steps(st, n) == steps(next, (n - 1) as nat));
        lemma_newlines_split(s, st.pos, p, next.pos);
        lemma_newlines_split(s, st.pos, next.pos, end);
    }
}

/// A text without a newline counts none.
proof fn lemma_no_newline(t: Seq<char>)
    requires
        forall|k: int| 0 <= k < t.len() ==> t[k] != '\n',
    ensures
        newlines(t) == 0,
    decreases t.len(),
{
    if t.len() > 0 {
        lemma_no_newline(t.drop_last());
    }
}

/// No character of a class that makes up a token is a newline.
proof fn lemma_class_no_newline(s: Seq<char>, i: int, cl: CharClass)
    requires
        0 <= i,
    ensures
        forall|k: int| i <= k < run_end(s, i, cl) ==> s[k] != '\n',
{
    lemma_run_end_bounds(s, i, cl);
    assert forall|k: int| i <= k < run_end(s, i, cl) implies s[k] != '\n' by {
        assert(in_class(cl, s[k]));
    }
}

proof fn lemma_exponent_no_newline(s: Seq<char>, p: int, j: int)
    requires
        0 <= p < j,
    ensures
        scan_exponent(s, p, j) matches Ok((t, e)) ==> forall|k: int| j <= k < e ==> s[k] != '\n',
{
    lemma_class_no_newline(s, j + 1, CharClass::Decimal);
    lemma_class_no_newline(s, j + 2, CharClass::Decimal);
}

proof fn lemma_fraction_no_newline(s: Seq<char>, p: int, j: int)
    requires
        0 <= p < j,
    ensures
        scan_fraction(s, p, j) matches Ok((t, e)) ==> forall|k: int| j <= k < e ==> s[k] != '\n',
{
    lemma_class_no_newline(s, j + 1, CharClass::Decimal);
    lemma_run_end_bounds(s, j + 1, CharClass::Decimal);
    let e = run_end(s, j + 1, CharClass::Decimal);
    lemma_exponent_no_newline(s, p, e + 1);
}

/// Law: only a string or a character constant can hold a newline; the text
/// of any other token has none.
pub proof fn law_only_literals_hold_newlines(s: Seq<char>, p: int)
    requires
        0 <= p <= s.len(),
    ensures
        scan_token(s, p) matches Ok((t, e)) ==> (!(t is CtString) && !(t is CtChar) ==> newlines(
            s.subrange(p, e),
        ) == 0),
{
    lemma_scan_token_bounds(s, p);
    lemma_class_no_newline(s, p + 1, CharClass::Ident);
    lemma_class_no_newline(s, p + 1, CharClass::Decimal);
    lemma_class_no_newline(s, p + 2, CharClass::Octal);
    lemma_class_no_newline(s, p + 2, CharClass::Hex);
    lemma_class_no_newline(s, p + 2, CharClass::Binary);
    lemma_run_end_bounds(s, p + 1, CharClass::Decimal);
    let e0 = run_end(s, p + 1, CharClass::Decimal);
    lemma_fraction_no_newline(s, p, e0 + 1);
    lemma_exponent_no_newline(s, p, e0 + 1);
    lemma_fraction_no_newline(s, p, p + 2);
    match scan_token(s, p) {
        Ok((t, e)) => {
            if !(t is CtString) && !(t is CtChar) {
                let w = s.subrange(p, e);
                assert forall|k: int| 0 <= k < w.len() implies w[k] != '\n' by {
                    assert(w[k] == s[p + k]);
                }
                lemma_no_newline(w);
            }
        },
        Err(_) => {},
    }
}

/// Whether none of the first `n` calls from `st` reads a string or character
/// constant whose text holds a newline.
pub open spec fn literals_without_newlines(st: LexState, n: nat) -> bool
    decreases n,
{
    if n == 0 {
        true
    } else {
        let p = skip(st.input, st.pos, st.line).0;
        &&& match next_token(st).0 {
            Ok(t) => (t is CtString || t is CtChar) ==> newlines(
                st.input.subrange(p, next_token(st).1.pos),
            ) == 0,
            Err(_) => true,
        }
        &&& literals_without_newlines(next_token(st).1, (n - 1) as nat)
    }
}

proof fn lemma_no_newlines_in_tokens(st: LexState, n: nat)
    requires
        0 <= st.pos <= st.input.len(),
        literals_without_newlines(st, n),
    ensures
        newlines_in_tokens(st, n) == 0,
    decreases n,
{
    if n > 0 {
        law_next_token_progress(st);
        lemma_skip_bounds(st.input, st.pos, st.line);
        let p = skip(st.input, st.pos, st.line).0;
        law_only_literals_hold_newlines(st.input, p);
        if next_token(st).0 is Err {
            assert(st.input.subrange(p, next_token(st).1.pos) =~= Seq::<char>::empty());
        }
        lemma_no_newlines_in_tokens(next_token(st).1, (n - 1) as nat);
    }
}

/// Law: where no string or character constant read so far holds a newline,
/// the line is the start line plus the newlines before the position; and the
/// token that the next call reads is on the start line plus the newlines
/// before its first character. From a lexer's start (line 1, position 0)
/// that is one more than the newlines of the text before the token.
pub proof fn law_token_line(st: LexState, n: nat)
    requires
        0 <= st.pos <= st.input.len(),
        literals_without_newlines(st, n),
    ensures
        steps(st, n).line == st.line + newlines(st.input.subrange(st.pos, steps(st, n).pos)),
        next_token(steps(st, n)).1.line == st.line + newlines(
            st.input.subrange(st.pos, skip(st.input, steps(st, n).pos, steps(st, n).line).0),
        ),
{
    lemma_no_newlines_in_tokens(st, n);
    law_lines_over_calls(st, n);
    let q = steps(st, n);
    lemma_skip_bounds(q.input, q.pos, q.line);
    law_lines_count_newlines(q.input, q.pos, q.line);
    let p = skip(q.input, q.pos, q.line).0;
    lemma_newlines_split(st.input, st.pos, q.pos, p);
}

/// Whether the characters of `s` from `i` up to `j` are all decimal digits.
pub open spec fn digits_between(s: Seq<char>, i: int, j: int) -> bool {
    forall|k: int| i <= k < j ==> #[trigger] is_digit(s[k])
}

/// A run of a class ends at the first character not in it.
proof fn lemma_run_end_exact(s: Seq<char>, i: int, j: int, cl: CharClass)
    requires
        0 <= i <= j < s.len(),
        forall|k: int| i <= k < j ==> #[trigger] in_class(cl, s[k]),
        !in_class(cl, s[j]),
    ensures
        run_end(s, i, cl) == j,
    decreases j - i,
{
    if i < j {
        lemma_run_end_exact(s, i + 1, j, cl);
    }
}

/// The integer part of a real constant at `p`, up to its `.` or exponent
/// marker at `q`: digits, and a lone `0` when it starts with `0`.
pub open spec fn real_integer_part(s: Seq<char>, p: int, q: int) -> bool {
    &&& 0 <= p < q < s.len()
    &&& is_digit(s[p])
    &&& (s[p] == '0' ==> q == p + 1)
    &&& digits_between(s, p + 1, q)
}

/// An exponent marker at `m`, an optional sign, and digits up to `r`, where
/// a character that is not a digit stands.
pub open spec fn exponent_part(s: Seq<char>, m: int, r: int) -> bool {
    &&& 0 <= m
    &&& m + 1 < r < s.len()
    &&& (s[m] == 'e' || s[m] == 'E')
    &&& (is_digit(s[m + 1]) && digits_between(s, m + 1, r) || (s[m + 1] == '+' || s[m + 1] == '-')
        && m + 2 < r && digits_between(s, m + 2, r))
    &&& !is_digit(s[r])
}

proof fn lemma_exponent_part(s: Seq<char>, p: int, m: int, r: int)
    requires
        0 <= p < m,
        exponent_part(s, m, r),
    ensures
        scan_exponent(s, p, m + 1) == Ok::<(SpecTokenCode, int), LexErrorKind>(
            (SpecTokenCode::CtReal(s.subrange(p, r)), r),
        ),
{
    if is_digit(s[m + 1]) {
        lemma_run_end_exact(s, m + 2, r, CharClass::Decimal);
    } else {
        lemma_run_end_exact(s, m + 3, r, CharClass::Decimal);
    }
}

/// Law: a real constant with a fraction and an exponent is read whole, with
/// either `e` or `E` as its exponent marker and an optional sign: digits, a
/// `.`, digits, the marker, digits, then a character that is not a digit
/// give the real constant of exactly that text.
pub proof fn law_real_constant(s: Seq<char>, p: int, q: int, m: int, r: int)
    requires
        real_integer_part(s, p, q),
        s[q] == '.',
        q + 1 < m,
        digits_between(s, q + 1, m),
        exponent_part(s, m, r),
    ensures
        scan_token(s, p) == Ok::<(SpecTokenCode, int), LexErrorKind>(
            (SpecTokenCode::CtReal(s.subrange(p, r)), r),
        ),
{
    lemma_run_end_exact(s, p + 1, q, CharClass::Decimal);
    lemma_run_end_exact(s, q + 2, m, CharClass::Decimal);
    lemma_exponent_part(s, p, m, r);
}

/// Law: a real constant with a fraction and no exponent is read whole:
/// digits, a `.`, digits, then a character that is neither a digit nor an
/// exponent marker.
pub proof fn law_real_fraction(s: Seq<char>, p: int, q: int, r: int)
    requires
        real_integer_part(s, p, q),
        s[q] == '.',
        q + 1 < r < s.len(),
        digits_between(s, q + 1, r),
        !is_digit(s[r]) && s[r] != 'e' && s[r] != 'E',
    ensures
        scan_token(s, p) == Ok::<(SpecTokenCode, int), LexErrorKind>(
            (SpecTokenCode::CtReal(s.subrange(p, r)), r),
        ),
{
    lemma_run_end_exact(s, p + 1, q, CharClass::Decimal);
    lemma_run_end_exact(s, q + 2, r, CharClass::Decimal);
}

/// Law: a decimal constant with an exponent and no fraction is real and is
/// read whole: digits starting with `1` to `9`, then an exponent marker
/// (`e` or `E`), an optional sign and digits.
pub proof fn law_real_exponent(s: Seq<char>, p: int, m: int, r: int)
    requires
        0 <= p < m,
        '1' <= s[p] && s[p] <= '9',
        digits_between(s, p + 1, m),
        exponent_part(s, m, r),
    ensures
        scan_token(s, p) == Ok::<(SpecTokenCode, int), LexErrorKind>(
            (SpecTokenCode::CtReal(s.subrange(p, r)), r),
        ),
{
    lemma_run_end_exact(s, p + 1, m, CharClass::Decimal);
    lemma_exponent_part(s, p, m, r);
}

} // verus!
