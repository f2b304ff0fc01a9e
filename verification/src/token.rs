use vstd::prelude::*;

verus! {

/// The kind of a token, with its value where it carries one.
///
/// A real constant carries the text it was written with (for example
/// `"1.5e3"`); its numeric value is that text read as a decimal floating-point
/// number.
#[allow(non_camel_case_types)]
#[derive(Debug, Clone, PartialEq)]
pub enum TokenCode {
    // identifiers and constants
    ID(String),
    CtInt(i64),
    CtReal(String),
    CtChar(char),
    CtString(String),
    // keywords
    BREAK, CHAR, DOUBLE, ELSE, FOR, IF, INT, RETURN, STRUCT, VOID, WHILE,
    // operators and delimiters
    ADD, SUB, MUL, DIV, DOT, AND, OR, NOT, ASSIGN, EQUAL, NOTEQ, LESS, LESSEQ, GREATER, GREATEREQ,
    COMMA, SEMICOLON, LPAR, RPAR, LBRACKET, RBRACKET, LACC, RACC,
    /// End of input.
    END,
}

/// The mathematical value of a [`TokenCode`]: strings are taken as their
/// sequences of characters.
#[allow(non_camel_case_types)]
pub enum SpecTokenCode {
    ID(Seq<char>),
    CtInt(i64),
    CtReal(Seq<char>),
    CtChar(char),
    CtString(Seq<char>),
    BREAK, CHAR, DOUBLE, ELSE, FOR, IF, INT, RETURN, STRUCT, VOID, WHILE,
    ADD, SUB, MUL, DIV, DOT, AND, OR, NOT, ASSIGN, EQUAL, NOTEQ, LESS, LESSEQ, GREATER, GREATEREQ,
    COMMA, SEMICOLON, LPAR, RPAR, LBRACKET, RBRACKET, LACC, RACC,
    END,
}

impl View for TokenCode {
    type V = SpecTokenCode;

    open spec fn view(&self) -> SpecTokenCode {
        match self {
            TokenCode::ID(s) => SpecTokenCode::ID(s@),
            TokenCode::CtInt(v) => SpecTokenCode::CtInt(*v),
            TokenCode::CtReal(s) => SpecTokenCode::CtReal(s@),
            TokenCode::CtChar(c) => SpecTokenCode::CtChar(*c),
            TokenCode::CtString(s) => SpecTokenCode::CtString(s@),
            TokenCode::BREAK => SpecTokenCode::BREAK,
            TokenCode::CHAR => SpecTokenCode::CHAR,
            TokenCode::DOUBLE => SpecTokenCode::DOUBLE,
            TokenCode::ELSE => SpecTokenCode::ELSE,
            TokenCode::FOR => SpecTokenCode::FOR,
            TokenCode::IF => SpecTokenCode::IF,
            TokenCode::INT => SpecTokenCode::INT,
            TokenCode::RETURN => SpecTokenCode::RETURN,
            TokenCode::STRUCT => SpecTokenCode::STRUCT,
            TokenCode::VOID => SpecTokenCode::VOID,
            TokenCode::WHILE => SpecTokenCode::WHILE,
            TokenCode::ADD => SpecTokenCode::ADD,
            TokenCode::SUB => SpecTokenCode::SUB,
            TokenCode::MUL => SpecTokenCode::MUL,
            TokenCode::DIV => SpecTokenCode::DIV,
            TokenCode::DOT => SpecTokenCode::DOT,
            TokenCode::AND => SpecTokenCode::AND,
            TokenCode::OR => SpecTokenCode::OR,
            TokenCode::NOT => SpecTokenCode::NOT,
            TokenCode::ASSIGN => SpecTokenCode::ASSIGN,
            TokenCode::EQUAL => SpecTokenCode::EQUAL,
            TokenCode::NOTEQ => SpecTokenCode::NOTEQ,
            TokenCode::LESS => SpecTokenCode::LESS,
            TokenCode::LESSEQ => SpecTokenCode::LESSEQ,
            TokenCode::GREATER => SpecTokenCode::GREATER,
            TokenCode::GREATEREQ => SpecTokenCode::GREATEREQ,
            TokenCode::COMMA => SpecTokenCode::COMMA,
            TokenCode::SEMICOLON => SpecTokenCode::SEMICOLON,
            TokenCode::LPAR => SpecTokenCode::LPAR,
            TokenCode::RPAR => SpecTokenCode::RPAR,
            TokenCode::LBRACKET => SpecTokenCode::LBRACKET,
            TokenCode::RBRACKET => SpecTokenCode::RBRACKET,
            TokenCode::LACC => SpecTokenCode::LACC,
            TokenCode::RACC => SpecTokenCode::RACC,
            TokenCode::END => SpecTokenCode::END,
        }
    }
}

/// A token and the line on which the lexer produced it.
#[derive(Debug, Clone)]
pub struct Token {
    pub code: TokenCode,
    pub line: usize,
}

} // verus!
