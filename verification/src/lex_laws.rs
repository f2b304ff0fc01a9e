//! Laws of the lexical grammar: which token a text starts with, stated over
//! the characters themselves.
use vstd::prelude::*;
use crate::chars::is_whitespace_char;
use crate::scan::{
    char_at, comment_end, digit_value, digits_value, in_class, int_constant, next_token, run_end,
    scan_token, CharClass, LexErrorKind, LexState, Scanned,
};
use crate::token::SpecTokenCode;

verus! {

/// The token that stands for a text with the given lexer answer.
pub open spec fn ok(t: SpecTokenCode, e: int) -> Scanned {
    Ok((t, e))
}

/// Law: the operators and delimiters. Each of `+ - * / . ; ( ) { } [ ] ,`
/// is a token of one character; `&&`, `||`, `==`, `!=`, `<=` and `>=` are
/// tokens of two; `=`, `!`, `<` and `>` alone are tokens of one; a lone `&`
/// or `|` is refused; the terminating `'\0'` is `END`, which reads nothing.
pub proof fn law_operator_tokens(s: Seq<char>, p: int)
    requires
        0 <= p < s.len(),
    ensures
        s[p] == '+' ==> scan_token(s, p) == ok(SpecTokenCode::ADD, p + 1),
        s[p] == '-' ==> scan_token(s, p) == ok(SpecTokenCode::SUB, p + 1),
        s[p] == '*' ==> scan_token(s, p) == ok(SpecTokenCode::MUL, p + 1),
        s[p] == '/' ==> scan_token(s, p) == ok(SpecTokenCode::DIV, p + 1),
        s[p] == '.' ==> scan_token(s, p) == ok(SpecTokenCode::DOT, p + 1),
        s[p] == ';' ==> scan_token(s, p) == ok(SpecTokenCode::SEMICOLON, p + 1),
        s[p] == '(' ==> scan_token(s, p) == ok(SpecTokenCode::LPAR, p + 1),
        s[p] == ')' ==> scan_token(s, p) == ok(SpecTokenCode::RPAR, p + 1),
        s[p] == '{' ==> scan_token(s, p) == ok(SpecTokenCode::LACC, p + 1),
        s[p] == '}' ==> scan_token(s, p) == ok(SpecTokenCode::RACC, p + 1),
        s[p] == '[' ==> scan_token(s, p) == ok(SpecTokenCode::LBRACKET, p + 1),
        s[p] == ']' ==> scan_token(s, p) == ok(SpecTokenCode::RBRACKET, p + 1),
        s[p] == ',' ==> scan_token(s, p) == ok(SpecTokenCode::COMMA, p + 1),
        s[p] == '&' && char_at(s, p + 1) == '&' ==> scan_token(s, p) == ok(SpecTokenCode::AND, p + 2),
        s[p] == '&' && char_at(s, p + 1) != '&' ==> scan_token(s, p) == Err::<(SpecTokenCode, int), LexErrorKind>(
            LexErrorKind::ExpectedAmpersand,
        ),
        s[p] == '|' && char_at(s, p + 1) == '|' ==> scan_token(s, p) == ok(SpecTokenCode::OR, p + 2),
        s[p] == '|' && char_at(s, p + 1) != '|' ==> scan_token(s, p) == Err::<(SpecTokenCode, int), LexErrorKind>(
            LexErrorKind::ExpectedPipe,
        ),
        s[p] == '=' && char_at(s, p + 1) == '=' ==> scan_token(s, p) == ok(SpecTokenCode::EQUAL, p + 2),
        s[p] == '=' && char_at(s, p + 1) != '=' ==> scan_token(s, p) == ok(SpecTokenCode::ASSIGN, p + 1),
        s[p] == '!' && char_at(s, p + 1) == '=' ==> scan_token(s, p) == ok(SpecTokenCode::NOTEQ, p + 2),
        s[p] == '!' && char_at(s, p + 1) != '=' ==> scan_token(s, p) == ok(SpecTokenCode::NOT, p + 1),
        s[p] == '<' && char_at(s, p + 1) == '=' ==> scan_token(s, p) == ok(SpecTokenCode::LESSEQ, p + 2),
        s[p] == '<' && char_at(s, p + 1) != '=' ==> scan_token(s, p) == ok(SpecTokenCode::LESS, p + 1),
        s[p] == '>' && char_at(s, p + 1) == '=' ==> scan_token(s, p) == ok(
            SpecTokenCode::GREATEREQ,
            p + 2,
        ),
        s[p] == '>' && char_at(s, p + 1) != '=' ==> scan_token(s, p) == ok(SpecTokenCode::GREATER, p + 1),
        s[p] == '\0' ==> scan_token(s, p) == ok(SpecTokenCode::END, p),
{
}

/// ASCII characters that start no token.
pub open spec fn is_stray_ascii(c: char) -> bool {
    c == '#' || c == '$' || c == '%' || c == '@' || c == '^' || c == '`' || c == '~' || c == '?' || c
        == ':' || c == '\\'
}

/// Law: a character that starts no token is refused as it stands.
pub proof fn law_invalid_characters(s: Seq<char>, p: int)
    requires
        0 <= p < s.len(),
        is_stray_ascii(s[p]),
    ensures
        scan_token(s, p) == Err::<(SpecTokenCode, int), LexErrorKind>(
            LexErrorKind::InvalidCharacter(s[p]),
        ),
{
}

/// Whether `c` is an ASCII letter, digit or underscore.
pub open spec fn is_word_char(c: char) -> bool {
    ('a' <= c && c <= 'z') || ('A' <= c && c <= 'Z') || ('0' <= c && c <= '9') || c == '_'
}

/// The keyword a word is, if it is one.
pub open spec fn keyword(w: Seq<char>) -> Option<SpecTokenCode> {
    if w == seq!['b', 'r', 'e', 'a', 'k'] {
        Some(SpecTokenCode::BREAK)
    } else if w == seq!['c', 'h', 'a', 'r'] {
        Some(SpecTokenCode::CHAR)
    } else if w == seq!['d', 'o', 'u', 'b', 'l', 'e'] {
        Some(SpecTokenCode::DOUBLE)
    } else if w == seq!['e', 'l', 's', 'e'] {
        Some(SpecTokenCode::ELSE)
    } else if w == seq!['f', 'o', 'r'] {
        Some(SpecTokenCode::FOR)
    } else if w == seq!['i', 'f'] {
        Some(SpecTokenCode::IF)
    } else if w == seq!['i', 'n', 't'] {
        Some(SpecTokenCode::INT)
    } else if w == seq!['r', 'e', 't', 'u', 'r', 'n'] {
        Some(SpecTokenCode::RETURN)
    } else if w == seq!['s', 't', 'r', 'u', 'c', 't'] {
        Some(SpecTokenCode::STRUCT)
    } else if w == seq!['v', 'o', 'i', 'd'] {
        Some(SpecTokenCode::VOID)
    } else if w == seq!['w', 'h', 'i', 'l', 'e'] {
        Some(SpecTokenCode::WHILE)
    } else {
        None
    }
}

proof fn lemma_run_end_exact(s: Seq<char>, i: int, j: int, cl: CharClass)
    requires
        0 <= i <= j < s.len(),
        forall|k: int| i <= k < j ==> #[trigger] in_class(cl, s[k]),
        !in_class(cl, s[j]),
    ensures
        run_end(s, i, cl) == j,
    decreases j - i,
{
    if i < j {
        lemma_run_end_exact(s, i + 1, j, cl);
    }
}

/// Law: a word of ASCII letters, digits and underscores that starts with a
/// letter or an underscore is read whole, up to the first character that
/// cannot continue it: it is its keyword if it is one of the eleven, and an
/// identifier of exactly that text otherwise.
pub proof fn law_words(s: Seq<char>, p: int, e: int)
    requires
        0 <= p < e < s.len(),
        is_word_char(s[p]) && !('0' <= s[p] && s[p] <= '9'),
        forall|k: int| p <= k < e ==> #[trigger] is_word_char(s[k]),
        s[e] <= '\u{7f}' && !is_word_char(s[e]),
    ensures
        scan_token(s, p) == ok(
            match keyword(s.subrange(p, e)) {
                Some(k) => k,
                None => SpecTokenCode::ID(s.subrange(p, e)),
            },
            e,
        ),
{
    assert forall|k: int| p + 1 <= k < e implies #[trigger] in_class(CharClass::Ident, s[k]) by {
        assert(is_word_char(s[k]));
    }
    lemma_run_end_exact(s, p + 1, e, CharClass::Ident);
}

/// The value of a digit, in any base up to 16.
pub open spec fn value_of_digit(c: char) -> int {
    if '0' <= c && c <= '9' {
        c as int - 48
    } else if 'a' <= c && c <= 'f' {
        c as int - 87
    } else {
        c as int - 55
    }
}

/// The number that the digits `d` denote in base `radix`, most significant
/// first.
pub open spec fn number(d: Seq<char>, radix: int) -> int
    decreases d.len(),
{
    if d.len() == 0 {
        0
    } else {
        number(d.drop_last(), radix) * radix + value_of_digit(d.last())
    }
}

/// An integer constant's value: the number, or `0` when it does not fit in
/// an `i64`.
pub open spec fn constant_value(d: Seq<char>, radix: int) -> i64 {
    if number(d, radix) <= i64::MAX {
        number(d, radix) as i64
    } else {
        0
    }
}

proof fn lemma_number(d: Seq<char>, radix: int)
    ensures
        int_constant(d, radix) == constant_value(d, radix),
        digits_value(d, radix) == number(d, radix),
    decreases d.len(),
{
    if d.len() > 0 {
        lemma_number(d.drop_last(), radix);
        assert(digit_value(d.last()) == value_of_digit(d.last()));
    }
}

/// Whether every character from `i` up to `j` satisfies `f`.
pub open spec fn all_between(s: Seq<char>, i: int, j: int, f: spec_fn(char) -> bool) -> bool {
    forall|k: int| i <= k < j ==> f(#[trigger] s[k])
}

pub open spec fn dec(c: char) -> bool {
    '0' <= c && c <= '9'
}

pub open spec fn oct(c: char) -> bool {
    '0' <= c && c <= '7'
}

pub open spec fn hex(c: char) -> bool {
    dec(c) || ('a' <= c && c <= 'f') || ('A' <= c && c <= 'F')
}

pub open spec fn bin(c: char) -> bool {
    c == '0' || c == '1'
}

/// Law: integer constants. Digits starting with `1` to `9` are a decimal
/// constant; `0` and octal digits an octal one; `0x` or `0X` and hex digits
/// a hexadecimal one; `0b` or `0B` and binary digits a binary one; `0` alone
/// is zero. Each is read whole up to the first character that cannot
/// continue it, and its value is the number its digits denote, or `0` when
/// that does not fit in an `i64` (or there are no digits after the prefix).
pub proof fn law_integer_constants(s: Seq<char>, p: int, e: int)
    requires
        0 <= p < e < s.len(),
    ensures
        '1' <= s[p] && s[p] <= '9' && all_between(s, p, e, |c: char| dec(c)) && !dec(s[e]) && s[e]
            != '.' && s[e] != 'e' && s[e] != 'E' ==> scan_token(s, p) == ok(
            SpecTokenCode::CtInt(constant_value(s.subrange(p, e), 10)),
            e,
        ),
        s[p] == '0' && p + 1 < e && all_between(s, p + 1, e, |c: char| oct(c)) && !dec(s[e])
            ==> scan_token(s, p) == ok(SpecTokenCode::CtInt(constant_value(s.subrange(p + 1, e), 8)), e),
        s[p] == '0' && p + 2 <= e && (s[p + 1] == 'x' || s[p + 1] == 'X') && all_between(
            s,
            p + 2,
            e,
            |c: char| hex(c),
        ) && !hex(s[e]) ==> scan_token(s, p) == ok(
            SpecTokenCode::CtInt(constant_value(s.subrange(p + 2, e), 16)),
            e,
        ),
        s[p] == '0' && p + 2 <= e && (s[p + 1] == 'b' || s[p + 1] == 'B') && all_between(
            s,
            p + 2,
            e,
            |c: char| bin(c),
        ) && !bin(s[e]) ==> scan_token(s, p) == ok(
            SpecTokenCode::CtInt(constant_value(s.subrange(p + 2, e), 2)),
            e,
        ),
        s[p] == '0' && e == p + 1 && !dec(s[e]) && s[e] != 'x' && s[e] != 'X' && s[e] != 'b' && s[e]
            != 'B' && s[e] != '.' ==> scan_token(s, p) == ok(SpecTokenCode::CtInt(0), p + 1),
{
    lemma_number(s.subrange(p, e), 10);
    if p + 1 <= e {
        lemma_number(s.subrange(p + 1, e), 8);
    }
    if p + 2 <= e {
        lemma_number(s.subrange(p + 2, e), 16);
        lemma_number(s.subrange(p + 2, e), 2);
    }
    if '1' <= s[p] && s[p] <= '9' && all_between(s, p, e, |c: char| dec(c)) {
        assert forall|k: int| p + 1 <= k < e implies #[trigger] in_class(CharClass::Decimal, s[k]) by {
            assert(dec(s[k]));
        }
        if !dec(s[e]) {
            lemma_run_end_exact(s, p + 1, e, CharClass::Decimal);
        }
    }
    if s[p] == '0' && p + 1 < e && all_between(s, p + 1, e, |c: char| oct(c)) && !dec(s[e]) {
        assert(oct(s[p + 1]));
        assert forall|k: int| p + 2 <= k < e implies #[trigger] in_class(CharClass::Octal, s[k]) by {
            assert(oct(s[k]));
        }
        lemma_run_end_exact(s, p + 2, e, CharClass::Octal);
    }
    if s[p] == '0' && p + 2 <= e && (s[p + 1] == 'x' || s[p + 1] == 'X') && all_between(
        s,
        p + 2,
        e,
        |c: char| hex(c),
    ) && !hex(s[e]) {
        assert forall|k: int| p + 2 <= k < e implies #[trigger] in_class(CharClass::Hex, s[k]) by {
            assert(hex(s[k]));
        }
        lemma_run_end_exact(s, p + 2, e, CharClass::Hex);
    }
    if s[p] == '0' && p + 2 <= e && (s[p + 1] == 'b' || s[p + 1] == 'B') && all_between(
        s,
        p + 2,
        e,
        |c: char| bin(c),
    ) && !bin(s[e]) {
        assert forall|k: int| p + 2 <= k < e implies #[trigger] in_class(CharClass::Binary, s[k]) by {
            assert(bin(s[k]));
        }
        lemma_run_end_exact(s, p + 2, e, CharClass::Binary);
    }
}

/// Law: the errors of number constants: `08` and `09` are refused, octal
/// digits followed by `8` or `9` are refused, and a `.` not followed by a
/// digit is refused.
pub proof fn law_number_errors(s: Seq<char>, p: int, e: int)
    requires
        0 <= p < e < s.len(),
    ensures
        s[p] == '0' && e == p + 1 && (s[e] == '8' || s[e] == '9') ==> scan_token(s, p) == Err::<
            (SpecTokenCode, int),
            LexErrorKind,
        >(LexErrorKind::InvalidDigitInOctalConstant),
        s[p] == '0' && p + 1 < e && all_between(s, p + 1, e, |c: char| oct(c)) && (s[e] == '8' || s[e]
            == '9') ==> scan_token(s, p) == Err::<(SpecTokenCode, int), LexErrorKind>(
            LexErrorKind::InvalidOctalDigit,
        ),
        '1' <= s[p] && s[p] <= '9' && all_between(s, p, e, |c: char| dec(c)) && s[e] == '.' && !dec(
            char_at(s, e + 1),
        ) ==> scan_token(s, p) == Err::<(SpecTokenCode, int), LexErrorKind>(
            LexErrorKind::ExpectedDigitAfterDot,
        ),
{
    if s[p] == '0' && p + 1 < e && all_between(s, p + 1, e, |c: char| oct(c)) && (s[e] == '8'
        || s[e] == '9') {
        assert(oct(s[p + 1]));
        assert forall|k: int| p + 2 <= k < e implies #[trigger] in_class(CharClass::Octal, s[k]) by {
            assert(oct(s[k]));
        }
        lemma_run_end_exact(s, p + 2, e, CharClass::Octal);
    }
    if '1' <= s[p] && s[p] <= '9' && all_between(s, p, e, |c: char| dec(c)) && s[e] == '.' {
        assert forall|k: int| p + 1 <= k < e implies #[trigger] in_class(CharClass::Decimal, s[k]) by {
            assert(dec(s[k]));
        }
        lemma_run_end_exact(s, p + 1, e, CharClass::Decimal);
    }
}

/// The character an escape `\e` in a character constant stands for.
pub open spec fn escaped(e: char) -> char {
    if e == 'n' {
        '\n'
    } else if e == 't' {
        '\t'
    } else if e == 'r' {
        '\r'
    } else if e == '0' {
        '\0'
    } else {
        e
    }
}

/// Law: character constants. `'c'` is the character `c` (any but `\`, `'`
/// and the terminating `'\0'`); `'\e'` is the character the escape stands
/// for (`\n`, `\t`, `\r`, `\0`, and any other `e` for itself); `''` is
/// refused; a constant without its closing quote is refused.
pub proof fn law_char_constants(s: Seq<char>, p: int)
    requires
        0 <= p < s.len(),
        s[p] == '\'',
    ensures
        ({
            let c = char_at(s, p + 1);
            c != '\\' && c != '\'' && c != '\0' && char_at(s, p + 2) == '\'' ==> scan_token(s, p)
                == ok(SpecTokenCode::CtChar(c), p + 3)
        }),
        char_at(s, p + 1) == '\\' && char_at(s, p + 3) == '\'' ==> scan_token(s, p) == ok(
            SpecTokenCode::CtChar(escaped(char_at(s, p + 2))),
            p + 4,
        ),
        char_at(s, p + 1) == '\'' ==> scan_token(s, p) == Err::<(SpecTokenCode, int), LexErrorKind>(
            LexErrorKind::EmptyCharConstant,
        ),
        ({
            let c = char_at(s, p + 1);
            c != '\\' && c != '\'' && c != '\0' && char_at(s, p + 2) != '\'' ==> scan_token(s, p)
                == Err::<(SpecTokenCode, int), LexErrorKind>(LexErrorKind::UnclosedCharConstant)
        }),
{
}

/// Law: a string constant is its text between two double quotes, with no
/// quote, backslash or `'\0'` in between, and the lexer goes on after the
/// closing quote; where no closing quote comes before the end of the text,
/// it is refused.
pub proof fn law_string_constants(s: Seq<char>, p: int, q: int)
    requires
        0 <= p < q < s.len(),
        s[p] == '"',
        forall|k: int| p < k < q ==> #[trigger] s[k] != '"' && s[k] != '\\' && s[k] != '\0',
    ensures
        s[q] == '"' ==> scan_token(s, p) == ok(SpecTokenCode::CtString(s.subrange(p + 1, q)), q + 1),
        s[q] == '\0' ==> scan_token(s, p) == Err::<(SpecTokenCode, int), LexErrorKind>(
            LexErrorKind::UnclosedString,
        ),
{
    lemma_string_run(s, p + 1, q);
}

proof fn lemma_string_run(s: Seq<char>, j: int, q: int)
    requires
        0 <= j <= q < s.len(),
        forall|k: int| j <= k < q ==> #[trigger] s[k] != '"' && s[k] != '\\' && s[k] != '\0',
    ensures
        s[q] == '"' ==> crate::scan::string_close(s, j) == Some(q),
        s[q] == '\0' ==> crate::scan::string_close(s, j) is None,
    decreases q - j,
{
    if j < q {
        lemma_string_run(s, j + 1, q);
    }
}

/// Law: white space and comments before a token are skipped. A white-space
/// character is passed, and a newline counts a line; a `//` comment is
/// passed up to the end of its line. Where neither stands, the lexer reads
/// the token that starts right there.
pub proof fn law_skipping(st: LexState)
    requires
        0 <= st.pos < st.input.len(),
    ensures
        ({
            let s = st.input;
            let i = st.pos;
            &&& s[i] != '\0' && is_whitespace_char(s[i]) ==> next_token(st) == next_token(
                LexState {
                    input: s,
                    pos: i + 1,
                    line: if s[i] == '\n' { st.line + 1 } else { st.line },
                },
            )
            &&& s[i] == '/' && char_at(s, i + 1) == '/' ==> next_token(st) == next_token(
                LexState { input: s, pos: comment_end(s, i + 2), line: st.line },
            )
            &&& !is_whitespace_char(s[i]) && !(s[i] == '/' && char_at(s, i + 1) == '/') ==> next_token(
                st,
            ).0 == match scan_token(s, i) {
                Ok((t, _)) => Ok::<SpecTokenCode, LexErrorKind>(t),
                Err(k) => Err(k),
            }
        }),
{
}

/// The Unicode `White_Space` characters.
pub open spec fn unicode_blank(c: char) -> bool {
    c == '\t' || c == '\n' || c == '\u{b}' || c == '\u{c}' || c == '\r' || c == ' ' || c == '\u{85}'
        || c == '\u{a0}' || c == '\u{1680}' || ('\u{2000}' <= c && c <= '\u{200a}') || c == '\u{2028}'
        || c == '\u{2029}' || c == '\u{202f}' || c == '\u{205f}' || c == '\u{3000}'
}

/// Law: every Unicode `White_Space` character before a token is skipped,
/// and only a newline counts a line; a character that is not one is not
/// skipped (unless it starts a comment).
pub proof fn law_white_space_characters(st: LexState)
    requires
        0 <= st.pos < st.input.len(),
    ensures
        unicode_blank(st.input[st.pos]) ==> next_token(st) == next_token(
            LexState {
                input: st.input,
                pos: st.pos + 1,
                line: if st.input[st.pos] == '\n' { st.line + 1 } else { st.line },
            },
        ),
        !unicode_blank(st.input[st.pos]) <==> !is_whitespace_char(st.input[st.pos]),
{
}

/// Law: a `//` comment runs up to the first newline, carriage return or
/// `'\0'`, which it does not take in; what follows is read as if the
/// comment were not there.
pub proof fn law_comments(st: LexState, j: int)
    requires
        0 <= st.pos,
        st.pos + 2 <= j < st.input.len(),
        st.input[st.pos] == '/',
        st.input[st.pos + 1] == '/',
        forall|k: int|
            st.pos + 2 <= k < j ==> #[trigger] st.input[k] != '\n' && st.input[k] != '\r'
                && st.input[k] != '\0',
        st.input[j] == '\n' || st.input[j] == '\r' || st.input[j] == '\0',
    ensures
        next_token(st) == next_token(LexState { input: st.input, pos: j, line: st.line }),
{
    lemma_comment_run(st.input, st.pos + 2, j);
}

proof fn lemma_comment_run(s: Seq<char>, i: int, j: int)
    requires
        0 <= i <= j < s.len(),
        forall|k: int| i <= k < j ==> #[trigger] s[k] != '\n' && s[k] != '\r' && s[k] != '\0',
        s[j] == '\n' || s[j] == '\r' || s[j] == '\0',
    ensures
        comment_end(s, i) == j,
    decreases j - i,
{
    if i < j {
        lemma_comment_run(s, i + 1, j);
    }
}

/// Law: inside a string constant a backslash takes the character after it
/// into the text, so `"\x"` is the text `\x` whatever `x` is, a quote
/// included.
pub proof fn law_string_escapes(s: Seq<char>, p: int)
    requires
        0 <= p,
        p + 3 < s.len(),
        s[p] == '"',
        s[p + 1] == '\\',
        s[p + 3] == '"',
    ensures
        scan_token(s, p) == ok(SpecTokenCode::CtString(s.subrange(p + 1, p + 3)), p + 4),
{
    assert(crate::scan::string_close(s, p + 3) == Some(p + 3));
}

} // verus!
