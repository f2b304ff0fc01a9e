use atomc::lexer::{tokenize, LexError, Lexer};
use atomc::scan::LexErrorKind;
use atomc::token::TokenCode;

fn codes(src: &str) -> Vec<TokenCode> {
    let (tokens, err) = tokenize(src);
    assert_eq!(err, None, "unexpected lexical error in {:?}", src);
    tokens.into_iter().map(|t| t.code).collect()
}

fn lines(src: &str) -> Vec<usize> {
    let (tokens, err) = tokenize(src);
    assert_eq!(err, None);
    tokens.into_iter().map(|t| t.line).collect()
}

fn error_of(src: &str) -> LexError {
    let (_, err) = tokenize(src);
    err.expect("expected a lexical error")
}

fn id(s: &str) -> TokenCode {
    TokenCode::ID(s.to_string())
}

#[test]
fn empty_source_gives_end_on_line_one() {
    let (tokens, err) = tokenize("");
    assert_eq!(err, None);
    assert_eq!(tokens.len(), 1);
    assert_eq!(tokens[0].code, TokenCode::END);
    assert_eq!(tokens[0].line, 1);
}

#[test]
fn simple_declaration() {
    assert_eq!(
        codes("int x = 0x1F;"),
        vec![TokenCode::INT, id("x"), TokenCode::ASSIGN, TokenCode::CtInt(31), TokenCode::SEMICOLON, TokenCode::END]
    );
}

#[test]
fn all_keywords() {
    assert_eq!(
        codes("break char double else for if int return struct void while"),
        vec![
            TokenCode::BREAK,
            TokenCode::CHAR,
            TokenCode::DOUBLE,
            TokenCode::ELSE,
            TokenCode::FOR,
            TokenCode::IF,
            TokenCode::INT,
            TokenCode::RETURN,
            TokenCode::STRUCT,
            TokenCode::VOID,
            TokenCode::WHILE,
            TokenCode::END,
        ]
    );
}

#[test]
fn keyword_prefixes_are_identifiers() {
    assert_eq!(codes("integer iff _while Int"), vec![id("integer"), id("iff"), id("_while"), id("Int"), TokenCode::END]);
}

#[test]
fn identifiers_with_digits_underscores_and_letters_of_any_script() {
    assert_eq!(codes("_a1 b_2 ñandú"), vec![id("_a1"), id("b_2"), id("ñandú"), TokenCode::END]);
}

#[test]
fn single_character_delimiters() {
    assert_eq!(
        codes("+-*.;(){}[],"),
        vec![
            TokenCode::ADD,
            TokenCode::SUB,
            TokenCode::MUL,
            TokenCode::DOT,
            TokenCode::SEMICOLON,
            TokenCode::LPAR,
            TokenCode::RPAR,
            TokenCode::LACC,
            TokenCode::RACC,
            TokenCode::LBRACKET,
            TokenCode::RBRACKET,
            TokenCode::COMMA,
            TokenCode::END,
        ]
    );
}

#[test]
fn operators_of_one_or_two_characters() {
    assert_eq!(
        codes("&& || ! != = == < <= > >= /"),
        vec![
            TokenCode::AND,
            TokenCode::OR,
            TokenCode::NOT,
            TokenCode::NOTEQ,
            TokenCode::ASSIGN,
            TokenCode::EQUAL,
            TokenCode::LESS,
            TokenCode::LESSEQ,
            TokenCode::GREATER,
            TokenCode::GREATEREQ,
            TokenCode::DIV,
            TokenCode::END,
        ]
    );
}

#[test]
fn operators_without_blanks() {
    assert_eq!(
        codes("a<=b!=!c"),
        vec![id("a"), TokenCode::LESSEQ, id("b"), TokenCode::NOTEQ, TokenCode::NOT, id("c"), TokenCode::END]
    );
}

#[test]
fn decimal_constants() {
    assert_eq!(codes("0 7 12 9223372036854775807"), vec![
        TokenCode::CtInt(0),
        TokenCode::CtInt(7),
        TokenCode::CtInt(12),
        TokenCode::CtInt(i64::MAX),
        TokenCode::END
    ]);
}

#[test]
fn decimal_overflow_reads_as_zero() {
    assert_eq!(codes("9223372036854775808"), vec![TokenCode::CtInt(0), TokenCode::END]);
    assert_eq!(codes("99999999999999999999"), vec![TokenCode::CtInt(0), TokenCode::END]);
}

#[test]
fn octal_hex_and_binary_constants() {
    assert_eq!(codes("017"), vec![TokenCode::CtInt(15), TokenCode::END]);
    assert_eq!(codes("0x1F 0XfF"), vec![TokenCode::CtInt(31), TokenCode::CtInt(255), TokenCode::END]);
    assert_eq!(codes("0b101 0B1"), vec![TokenCode::CtInt(5), TokenCode::CtInt(1), TokenCode::END]);
    assert_eq!(codes("0xFFFFFFFFFFFFFFF"), vec![TokenCode::CtInt(1152921504606846975), TokenCode::END]);
}

#[test]
fn prefixes_without_digits_read_as_zero() {
    assert_eq!(codes("0x"), vec![TokenCode::CtInt(0), TokenCode::END]);
    assert_eq!(codes("0b;"), vec![TokenCode::CtInt(0), TokenCode::SEMICOLON, TokenCode::END]);
}

#[test]
fn hex_and_binary_overflow_read_as_zero() {
    assert_eq!(codes("0x8000000000000000"), vec![TokenCode::CtInt(0), TokenCode::END]);
    assert_eq!(
        codes("0b11111111111111111111111111111111111111111111111111111111111111111"),
        vec![TokenCode::CtInt(0), TokenCode::END]
    );
}

#[test]
fn a_number_stops_where_its_digits_stop() {
    assert_eq!(codes("123abc"), vec![TokenCode::CtInt(123), id("abc"), TokenCode::END]);
    assert_eq!(codes("0x1G"), vec![TokenCode::CtInt(1), id("G"), TokenCode::END]);
    assert_eq!(codes("0b102"), vec![TokenCode::CtInt(2), TokenCode::CtInt(2), TokenCode::END]);
}

#[test]
fn real_constants_keep_their_text() {
    assert_eq!(
        codes("0.5 1.5e3 2e-3 7E+10 3.25"),
        vec![
            TokenCode::CtReal("0.5".to_string()),
            TokenCode::CtReal("1.5e3".to_string()),
            TokenCode::CtReal("2e-3".to_string()),
            TokenCode::CtReal("7E+10".to_string()),
            TokenCode::CtReal("3.25".to_string()),
            TokenCode::END,
        ]
    );
}

#[test]
fn real_followed_by_dot() {
    assert_eq!(
        codes("1.5.2"),
        vec![TokenCode::CtReal("1.5".to_string()), TokenCode::DOT, TokenCode::CtInt(2), TokenCode::END]
    );
}

#[test]
fn number_errors() {
    assert_eq!(error_of("1."), LexError { kind: LexErrorKind::ExpectedDigitAfterDot, line: 1 });
    assert_eq!(error_of("0.e"), LexError { kind: LexErrorKind::ExpectedDigitAfterDot, line: 1 });
    assert_eq!(error_of("1e"), LexError { kind: LexErrorKind::ExpectedExponent, line: 1 });
    assert_eq!(error_of("1.0ex"), LexError { kind: LexErrorKind::ExpectedExponent, line: 1 });
    assert_eq!(error_of("1e+"), LexError { kind: LexErrorKind::ExpectedDigitAfterExponentSign, line: 1 });
    assert_eq!(error_of("08"), LexError { kind: LexErrorKind::InvalidDigitInOctalConstant, line: 1 });
    assert_eq!(error_of("09"), LexError { kind: LexErrorKind::InvalidDigitInOctalConstant, line: 1 });
    assert_eq!(error_of("018"), LexError { kind: LexErrorKind::InvalidOctalDigit, line: 1 });
}

#[test]
fn character_constants() {
    assert_eq!(
        codes("'a' '\\n' '\\t' '\\r' '\\0' '\\\\' '\\'' '\\q'"),
        vec![
            TokenCode::CtChar('a'),
            TokenCode::CtChar('\n'),
            TokenCode::CtChar('\t'),
            TokenCode::CtChar('\r'),
            TokenCode::CtChar('\0'),
            TokenCode::CtChar('\\'),
            TokenCode::CtChar('\''),
            TokenCode::CtChar('q'),
            TokenCode::END,
        ]
    );
}

#[test]
fn character_constant_errors() {
    assert_eq!(error_of("''"), LexError { kind: LexErrorKind::EmptyCharConstant, line: 1 });
    assert_eq!(error_of("'"), LexError { kind: LexErrorKind::EmptyCharConstant, line: 1 });
    assert_eq!(error_of("'ab'"), LexError { kind: LexErrorKind::UnclosedCharConstant, line: 1 });
    assert_eq!(error_of("'\\"), LexError { kind: LexErrorKind::UnclosedCharConstant, line: 1 });
}

#[test]
fn string_constants_keep_their_raw_text() {
    assert_eq!(
        codes("\"hi\" \"\" \"a\\\"b\""),
        vec![
            TokenCode::CtString("hi".to_string()),
            TokenCode::CtString(String::new()),
            TokenCode::CtString("a\\\"b".to_string()),
            TokenCode::END,
        ]
    );
}

#[test]
fn string_errors() {
    assert_eq!(error_of("\"abc"), LexError { kind: LexErrorKind::UnclosedString, line: 1 });
    assert_eq!(error_of("x\n\"a\\"), LexError { kind: LexErrorKind::UnclosedString, line: 2 });
}

#[test]
fn newlines_inside_a_string_are_not_counted() {
    let (tokens, err) = tokenize("\"a\nb\" x");
    assert_eq!(err, None);
    assert_eq!(tokens[0].code, TokenCode::CtString("a\nb".to_string()));
    assert_eq!(tokens[0].line, 1);
    assert_eq!(tokens[1].code, id("x"));
    assert_eq!(tokens[1].line, 1);
}

#[test]
fn comments_are_skipped() {
    assert_eq!(codes("// hello\nx // tail"), vec![id("x"), TokenCode::END]);
    assert_eq!(codes("//"), vec![TokenCode::END]);
    assert_eq!(codes("a / b"), vec![id("a"), TokenCode::DIV, id("b"), TokenCode::END]);
    assert_eq!(lines("// one\n// two\nx"), vec![3, 3]);
}

#[test]
fn lines_count_newlines() {
    assert_eq!(lines("a\n\nb"), vec![1, 3, 3]);
    assert_eq!(lines("\t\r\n x\n"), vec![2, 3]);
}

#[test]
fn unicode_blanks_are_skipped() {
    assert_eq!(codes("a\u{00A0}b\u{2003}c"), vec![id("a"), id("b"), id("c"), TokenCode::END]);
}

#[test]
fn nul_character_ends_the_text() {
    assert_eq!(codes("a\0b"), vec![id("a"), TokenCode::END]);
}

#[test]
fn operator_errors() {
    assert_eq!(error_of("a & b"), LexError { kind: LexErrorKind::ExpectedAmpersand, line: 1 });
    assert_eq!(error_of("|x"), LexError { kind: LexErrorKind::ExpectedPipe, line: 1 });
}

#[test]
fn invalid_characters() {
    assert_eq!(error_of("@"), LexError { kind: LexErrorKind::InvalidCharacter('@'), line: 1 });
    assert_eq!(error_of("x\n#"), LexError { kind: LexErrorKind::InvalidCharacter('#'), line: 2 });
    assert_eq!(error_of("a % b"), LexError { kind: LexErrorKind::InvalidCharacter('%'), line: 1 });
}

#[test]
fn tokens_before_an_error_are_kept() {
    let (tokens, err) = tokenize("a b\n@ c");
    assert_eq!(tokens.iter().map(|t| t.code.clone()).collect::<Vec<_>>(), vec![id("a"), id("b")]);
    assert_eq!(err, Some(LexError { kind: LexErrorKind::InvalidCharacter('@'), line: 2 }));
}

#[test]
fn end_is_sticky() {
    let mut lexer = Lexer::new("x\n");
    assert_eq!(lexer.get_next_token().unwrap().code, id("x"));
    let first = lexer.get_next_token().unwrap();
    assert_eq!(first.code, TokenCode::END);
    assert_eq!(first.line, 2);
    let second = lexer.get_next_token().unwrap();
    assert_eq!(second.code, TokenCode::END);
    assert_eq!(second.line, 2);
    assert_eq!(lexer.line, 2);
}

#[test]
fn lexer_reports_lines_as_it_goes() {
    let mut lexer = Lexer::new("int\n\nx;");
    let t = lexer.get_next_token().unwrap();
    assert_eq!((t.code, t.line), (TokenCode::INT, 1));
    let t = lexer.get_next_token().unwrap();
    assert_eq!((t.code, t.line), (id("x"), 3));
    let t = lexer.get_next_token().unwrap();
    assert_eq!((t.code, t.line), (TokenCode::SEMICOLON, 3));
}

#[test]
fn lexer_error_names_the_line() {
    let mut lexer = Lexer::new("a\n\n  &");
    assert_eq!(lexer.get_next_token().unwrap().code, id("a"));
    match lexer.get_next_token() {
        Err(e) => assert_eq!(e, LexError { kind: LexErrorKind::ExpectedAmpersand, line: 3 }),
        Ok(t) => panic!("expected an error, got {:?}", t),
    }
}

#[test]
fn blanks_between_tokens_do_not_matter() {
    assert_eq!(codes("int x;"), codes("  int\n\t x \n\n ; "));
    assert_eq!(codes("a+b"), codes("a + b // sum"));
}

#[test]
fn tokenize_always_ends_with_end() {
    for src in ["", "x", "int main() { return 0; }", "   \n", "'a' \"s\" 1.5"] {
        let (tokens, err) = tokenize(src);
        assert_eq!(err, None);
        assert_eq!(tokens.last().unwrap().code, TokenCode::END);
        assert_eq!(tokens.iter().filter(|t| t.code == TokenCode::END).count(), 1);
    }
}

#[test]
fn messages_of_lexical_refusals() {
    assert_eq!(LexErrorKind::InvalidCharacter('@').message(), "Invalid character: @");
    assert_eq!(LexErrorKind::ExpectedExponent.message(), "Expected '+', '-', or digit after exponent (e/E)");
    assert_eq!(error_of("\"abc").kind.message(), "Unclosed string literal");
    assert_eq!(error_of("a | b").kind.message(), "Expected '|' after '|'");
    assert_eq!(error_of("''").kind.message(), "Empty or invalid character constant");
}

#[test]
fn every_unicode_blank_is_skipped() {
    let blanks = [
        '\u{9}', '\u{a}', '\u{b}', '\u{c}', '\u{d}', ' ', '\u{85}', '\u{a0}', '\u{1680}', '\u{2000}',
        '\u{2005}', '\u{200a}', '\u{2028}', '\u{2029}', '\u{202f}', '\u{205f}', '\u{3000}',
    ];
    for b in blanks {
        let src = format!("x{}y", b);
        assert_eq!(codes(&src), vec![id("x"), id("y"), TokenCode::END]);
    }
    assert_eq!(error_of("x\u{200b}y").kind, LexErrorKind::InvalidCharacter('\u{200b}'));
}

#[test]
fn token_lines_count_the_newlines_before_them() {
    assert_eq!(lines("a\n b\n\n\n c // d\n e"), vec![1, 2, 5, 6, 6]);
}
