use vstd::prelude::*;
use crate::grammar::{
    after, args_tail, array_decl, call_suffix, names_struct, array_size, as_array, binary, binary_tail, block_body, declare_var, expr,
    expr_assign, expr_cast, expr_postfix, expr_primary, fn_def, fn_param, fn_rest, for_header,
    for_rest, id_at, if_rest, is_at, line_at, param_tail, postfix_tail, remaining, stm,
    stm_compound, struct_def, struct_members, type_base, unary, unit, unit_items, var_def,
    var_tail, while_rest, yes_to, BinLevel, PState, Run, Step, SyntaxErrorKind, TypeStep,
};
use crate::symbol::{Symbol, SymbolKind, Type, TypeBase};
use crate::symtable::{
    depths_within, grows_at, law_close_after_growth, law_close_within, law_define_within,
    lemma_grows_define, lemma_grows_refl, lemma_grows_trans, SymTable,
};
use crate::token::{SpecTokenCode, Token, TokenCode};

verus! {

/// Checks that a sequence of tokens is a well-formed AtomC unit, keeping
/// track of the symbols it defines.
pub struct Parser {
    tokens: Vec<Token>,
    pos: usize,
    sym_table: SymTable,
}

/// A refusal of the syntax checker: why, and the line of the token where it
/// stopped (0 past the last token).
#[derive(Debug, Clone, PartialEq)]
pub struct SyntaxError {
    pub kind: SyntaxErrorKind,
    pub line: usize,
}

/// The position of a token kind in the list of kinds.
pub open spec fn code_rank(c: SpecTokenCode) -> int {
    match c {
        SpecTokenCode::ID(_) => 0,
        SpecTokenCode::CtInt(_) => 1,
        SpecTokenCode::CtReal(_) => 2,
        SpecTokenCode::CtChar(_) => 3,
        SpecTokenCode::CtString(_) => 4,
        SpecTokenCode::BREAK => 5,
        SpecTokenCode::CHAR => 6,
        SpecTokenCode::DOUBLE => 7,
        SpecTokenCode::ELSE => 8,
        SpecTokenCode::FOR => 9,
        SpecTokenCode::IF => 10,
        SpecTokenCode::INT => 11,
        SpecTokenCode::RETURN => 12,
        SpecTokenCode::STRUCT => 13,
        SpecTokenCode::VOID => 14,
        SpecTokenCode::WHILE => 15,
        SpecTokenCode::ADD => 16,
        SpecTokenCode::SUB => 17,
        SpecTokenCode::MUL => 18,
        SpecTokenCode::DIV => 19,
        SpecTokenCode::DOT => 20,
        SpecTokenCode::AND => 21,
        SpecTokenCode::OR => 22,
        SpecTokenCode::NOT => 23,
        SpecTokenCode::ASSIGN => 24,
        SpecTokenCode::EQUAL => 25,
        SpecTokenCode::NOTEQ => 26,
        SpecTokenCode::LESS => 27,
        SpecTokenCode::LESSEQ => 28,
        SpecTokenCode::GREATER => 29,
        SpecTokenCode::GREATEREQ => 30,
        SpecTokenCode::COMMA => 31,
        SpecTokenCode::SEMICOLON => 32,
        SpecTokenCode::LPAR => 33,
        SpecTokenCode::RPAR => 34,
        SpecTokenCode::LBRACKET => 35,
        SpecTokenCode::RBRACKET => 36,
        SpecTokenCode::LACC => 37,
        SpecTokenCode::RACC => 38,
        SpecTokenCode::END => 39,
    }
}

fn code_rank_exec(c: &TokenCode) -> (r: u8)
    ensures
        r == code_rank(c@),
{
    match c {
        TokenCode::ID(_) => 0,
        TokenCode::CtInt(_) => 1,
        TokenCode::CtReal(_) => 2,
        TokenCode::CtChar(_) => 3,
        TokenCode::CtString(_) => 4,
        TokenCode::BREAK => 5,
        TokenCode::CHAR => 6,
        TokenCode::DOUBLE => 7,
        TokenCode::ELSE => 8,
        TokenCode::FOR => 9,
        TokenCode::IF => 10,
        TokenCode::INT => 11,
        TokenCode::RETURN => 12,
        TokenCode::STRUCT => 13,
        TokenCode::VOID => 14,
        TokenCode::WHILE => 15,
        TokenCode::ADD => 16,
        TokenCode::SUB => 17,
        TokenCode::MUL => 18,
        TokenCode::DIV => 19,
        TokenCode::DOT => 20,
        TokenCode::AND => 21,
        TokenCode::OR => 22,
        TokenCode::NOT => 23,
        TokenCode::ASSIGN => 24,
        TokenCode::EQUAL => 25,
        TokenCode::NOTEQ => 26,
        TokenCode::LESS => 27,
        TokenCode::LESSEQ => 28,
        TokenCode::GREATER => 29,
        TokenCode::GREATEREQ => 30,
        TokenCode::COMMA => 31,
        TokenCode::SEMICOLON => 32,
        TokenCode::LPAR => 33,
        TokenCode::RPAR => 34,
        TokenCode::LBRACKET => 35,
        TokenCode::RBRACKET => 36,
        TokenCode::LACC => 37,
        TokenCode::RACC => 38,
        TokenCode::END => 39,
    }
}

/// Whether two token kinds are the same, with the same value where they
/// carry one.
fn same_code(a: &TokenCode, b: &TokenCode) -> (r: bool)
    ensures
        r == (a@ == b@),
{
    match (a, b) {
        (TokenCode::ID(x), TokenCode::ID(y)) => *x == *y,
        (TokenCode::CtInt(x), TokenCode::CtInt(y)) => *x == *y,
        (TokenCode::CtReal(x), TokenCode::CtReal(y)) => *x == *y,
        (TokenCode::CtChar(x), TokenCode::CtChar(y)) => *x == *y,
        (TokenCode::CtString(x), TokenCode::CtString(y)) => *x == *y,
        _ => code_rank_exec(a) == code_rank_exec(b) && code_rank_exec(a) >= 5,
    }
}

/// How a rule ended, read from what the checker returned and where it stood
/// before and after.
pub open spec fn step_of(st: PState, r: Result<bool, SyntaxError>, end: PState) -> Step {
    match r {
        Ok(true) => yes_to(st, end),
        Ok(false) => Step::No,
        Err(e) => Step::Fail(e.kind, e.line as int),
    }
}

/// A rule run on `before` returned `r` and left `after_`, as `expected` says;
/// on `Yes` it used at least one token and left the depth as it was, on `No`
/// it left everything as it was.
pub open spec fn ruled(before: Parser, r: Result<bool, SyntaxError>, after_: Parser, expected: Step) -> bool {
    &&& after_.toks() == before.toks()
    &&& step_of(before.state(), r, after_.state()) == expected
    &&& r is Ok ==> after_.wf()
    &&& r == Ok::<bool, SyntaxError>(false) ==> after_.state() == before.state()
    &&& r == Ok::<bool, SyntaxError>(true) ==> after_.state().pos > before.state().pos
        && after_.state().depth == before.state().depth
}

/// The same for a repetition, which may use no token.
pub open spec fn ran(before: Parser, r: Result<(), SyntaxError>, after_: Parser, expected: Run) -> bool {
    &&& after_.toks() == before.toks()
    &&& match r {
        Ok(()) => expected == Run::Done(after_.state()) && after_.wf()
            && after_.state().pos >= before.state().pos
            && after_.state().depth == before.state().depth,
        Err(e) => expected == Run::Fail(e.kind, e.line as int),
    }
}

impl Parser {
    /// The tokens.
    pub closed spec fn toks(&self) -> Seq<Token> {
        self.tokens@
    }

    /// The position and the symbol table.
    pub closed spec fn state(&self) -> PState {
        PState {
            pos: self.pos as int,
            syms: self.sym_table.symbols@,
            depth: self.sym_table.current_depth as int,
        }
    }

    /// The position lies in the tokens, and the depth plus the number of
    /// tokens still to read fits in an `i32`: a scope opens only after a
    /// token is read, so every scope the checker opens has a depth that fits.
    pub closed spec fn wf(&self) -> bool {
        &&& self.pos <= self.tokens@.len()
        &&& 0 <= self.sym_table.current_depth
        &&& self.sym_table.current_depth + (self.tokens@.len() - self.pos) < i32::MAX
        &&& depths_within(self.sym_table.symbols@, self.sym_table.current_depth as int)
    }

    /// A checker at the first of `tokens`, with an empty symbol table.
    pub fn new(tokens: Vec<Token>) -> (p: Self)
        ensures
            p.toks() == tokens@,
            p.state() == (PState { pos: 0, syms: Seq::empty(), depth: 0 }),
            tokens@.len() < i32::MAX ==> p.wf(),
    {
        let p = Self { tokens, pos: 0, sym_table: SymTable::new() };
        assert(p.sym_table.symbols@ =~= Seq::empty());
        p
    }

    /// The symbols defined so far and still in scope, in order.
    pub fn symbols(&self) -> (r: &Vec<Symbol>)
        ensures
            r@ == self.state().syms,
    {
        &self.sym_table.symbols
    }

    /// The token at the current position.
    fn crt_tk(&self) -> (t: Option<&Token>)
        ensures
            t == (if self.pos < self.tokens@.len() {
                Some(&self.tokens@[self.pos as int])
            } else {
                None::<&Token>
            }),
    {
        if self.pos < self.tokens.len() {
            Some(&self.tokens[self.pos])
        } else {
            None
        }
    }

    /// The refusal `kind` at the current position.
    fn err(&self, kind: SyntaxErrorKind) -> (e: SyntaxError)
        ensures
            e.kind == kind,
            e.line as int == line_at(self.tokens@, self.pos as int),
    {
        let line = match self.crt_tk() {
            Some(tk) => tk.line,
            None => 0,
        };
        SyntaxError { kind, line }
    }

    /// Moves past the current token if it is `expected`.
    fn consume(&mut self, expected: TokenCode) -> (b: bool)
        requires
            old(self).pos <= old(self).tokens@.len(),
        ensures
            b == is_at(old(self).tokens@, old(self).state(), expected@),
            final(self).tokens == old(self).tokens,
            final(self).sym_table == old(self).sym_table,
            final(self).pos == if b { old(self).pos + 1 } else { old(self).pos as int },
    {
        if self.pos < self.tokens.len() && same_code(&self.tokens[self.pos].code, &expected) {
            self.pos += 1;
            return true;
        }
        false
    }

    /// Moves past the current token if it is an identifier.
    fn consume_id(&mut self) -> (b: bool)
        requires
            old(self).pos <= old(self).tokens@.len(),
        ensures
            b == id_at(old(self).tokens@, old(self).state()) is Some,
            final(self).tokens == old(self).tokens,
            final(self).sym_table == old(self).sym_table,
            final(self).pos == if b { old(self).pos + 1 } else { old(self).pos as int },
    {
        if self.pos < self.tokens.len() {
            if let TokenCode::ID(_) = &self.tokens[self.pos].code {
                self.pos += 1;
                return true;
            }
        }
        false
    }

    /// Moves past the current token if it is an identifier, and gives its name.
    fn consume_id_name(&mut self) -> (n: Option<String>)
        requires
            old(self).pos <= old(self).tokens@.len(),
        ensures
            n == id_at(old(self).tokens@, old(self).state()),
            final(self).tokens == old(self).tokens,
            final(self).sym_table == old(self).sym_table,
            final(self).pos == if n is Some { old(self).pos + 1 } else { old(self).pos as int },
    {
        if self.pos < self.tokens.len() {
            if let TokenCode::ID(name) = &self.tokens[self.pos].code {
                let id_name = name.clone();
                self.pos += 1;
                return Some(id_name);
            }
        }
        None
    }

    /// Moves past the current token if it is an integer constant.
    fn consume_ct_int(&mut self) -> (b: bool)
        requires
            old(self).pos <= old(self).tokens@.len(),
        ensures
            b == (old(self).pos < old(self).tokens@.len() && old(self).tokens@[old(self).pos as int].code is CtInt),
            final(self).tokens == old(self).tokens,
            final(self).sym_table == old(self).sym_table,
            final(self).pos == if b { old(self).pos + 1 } else { old(self).pos as int },
    {
        if self.pos < self.tokens.len() {
            if let TokenCode::CtInt(_) = &self.tokens[self.pos].code {
                self.pos += 1;
                return true;
            }
        }
        false
    }

    /// Moves past the current token if it is a real constant.
    fn consume_ct_real(&mut self) -> (b: bool)
        requires
            old(self).pos <= old(self).tokens@.len(),
        ensures
            b == (old(self).pos < old(self).tokens@.len() && old(self).tokens@[old(self).pos as int].code is CtReal),
            final(self).tokens == old(self).tokens,
            final(self).sym_table == old(self).sym_table,
            final(self).pos == if b { old(self).pos + 1 } else { old(self).pos as int },
    {
        if self.pos < self.tokens.len() {
            if let TokenCode::CtReal(_) = &self.tokens[self.pos].code {
                self.pos += 1;
                return true;
            }
        }
        false
    }

    /// Moves past the current token if it is a character constant.
    fn consume_ct_char(&mut self) -> (b: bool)
        requires
            old(self).pos <= old(self).tokens@.len(),
        ensures
            b == (old(self).pos < old(self).tokens@.len() && old(self).tokens@[old(self).pos as int].code is CtChar),
            final(self).tokens == old(self).tokens,
            final(self).sym_table == old(self).sym_table,
            final(self).pos == if b { old(self).pos + 1 } else { old(self).pos as int },
    {
        if self.pos < self.tokens.len() {
            if let TokenCode::CtChar(_) = &self.tokens[self.pos].code {
                self.pos += 1;
                return true;
            }
        }
        false
    }

    /// Moves past the current token if it is a string constant.
    fn consume_ct_string(&mut self) -> (b: bool)
        requires
            old(self).pos <= old(self).tokens@.len(),
        ensures
            b == (old(self).pos < old(self).tokens@.len() && old(self).tokens@[old(self).pos as int].code is CtString),
            final(self).tokens == old(self).tokens,
            final(self).sym_table == old(self).sym_table,
            final(self).pos == if b { old(self).pos + 1 } else { old(self).pos as int },
    {
        if self.pos < self.tokens.len() {
            if let TokenCode::CtString(_) = &self.tokens[self.pos].code {
                self.pos += 1;
                return true;
            }
        }
        false
    }

    /// Whether a struct named `name` is in scope.
    fn struct_defined(&self, name: &String) -> (b: bool)
        ensures
            b == names_struct(self.state().syms, name@),
    {
        let mut i: usize = 0;
        while i < self.sym_table.symbols.len()
            invariant
                i <= self.sym_table.symbols@.len(),
                forall|j: int|
                    0 <= j < i ==> !(#[trigger] self.sym_table.symbols@[j].name@ == name@
                        && self.sym_table.symbols@[j].kind == SymbolKind::Struct),
            decreases self.sym_table.symbols@.len() - i,
        {
            let s = &self.sym_table.symbols[i];
            if s.name == *name && s.kind == SymbolKind::Struct {
                return true;
            }
            i += 1;
        }
        false
    }

    /// `type_base: INT | DOUBLE | CHAR | STRUCT ID`; a struct type must name
    /// a known struct.
    fn type_base(&mut self) -> (r: Result<Option<Type>, SyntaxError>)
        requires
            old(self).wf(),
        ensures
            final(self).tokens == old(self).tokens,
            final(self).sym_table == old(self).sym_table,
            match r {
                Ok(Some(t)) => type_base(old(self).toks(), old(self).state()) == TypeStep::Yes(
                    t,
                    (final(self).pos - old(self).pos - 1) as nat,
                ) && final(self).pos > old(self).pos && final(self).wf(),
                Ok(None) => type_base(old(self).toks(), old(self).state()) == TypeStep::No
                    && final(self).pos == old(self).pos,
                Err(e) => type_base(old(self).toks(), old(self).state()) == TypeStep::Fail(
                    e.kind,
                    e.line as int,
                ),
            },
    {
        let start_pos = self.pos;
        let mut t = Type::new();
        if self.consume(TokenCode::INT) {
            t.tb = TypeBase::Int;
            return Ok(Some(t));
        }
        if self.consume(TokenCode::DOUBLE) {
            t.tb = TypeBase::Double;
            return Ok(Some(t));
        }
        if self.consume(TokenCode::CHAR) {
            t.tb = TypeBase::Char;
            return Ok(Some(t));
        }
        if self.consume(TokenCode::STRUCT) {
            if let Some(name) = self.consume_id_name() {
                // The struct must be known.
                if !self.struct_defined(&name) {
                    return Err(self.err(SyntaxErrorKind::UndefinedStruct(name)));
                }
                t.tb = TypeBase::Struct;
                t.struct_name = Some(name);
                return Ok(Some(t));
            } else {
                return Err(self.err(SyntaxErrorKind::MissingIdAfterStruct));
            }
        }
        self.pos = start_pos;
        Ok(None)
    }

    /// The size an array declarator whose `[` stands at the current
    /// position gives.
    fn array_size_here(&self) -> (n: i32)
        requires
            self.wf(),
        ensures
            n == array_size(self.toks(), self.state()),
    {
        if self.tokens.len() - self.pos >= 3 && same_code(
            &self.tokens[self.pos + 2].code,
            &TokenCode::RBRACKET,
        ) {
            let k = self.pos + 1;
            match &self.tokens[k].code {
                TokenCode::CtInt(v) => {
                    if 0 < *v && *v <= 2147483647i64 {
                        *v as i32
                    } else {
                        0
                    }
                },
                _ => 0,
            }
        } else {
            0
        }
    }

    /// `array_decl: LBRACKET expr? RBRACKET`; makes `t` an array, of the size
    /// written between the brackets when that is a positive integer constant.
    fn array_decl(&mut self, t: &mut Type) -> (r: Result<bool, SyntaxError>)
        requires
            old(self).wf(),
        ensures
            final(self).sym_table == old(self).sym_table,
            ruled(*old(self), r, *final(self), array_decl(old(self).toks(), old(self).state())),
            r == Ok::<bool, SyntaxError>(true) ==> *final(t) == as_array(
                *old(t),
                array_size(old(self).toks(), old(self).state()),
            ),
            r == Ok::<bool, SyntaxError>(false) ==> *final(t) == *old(t),
        decreases remaining(old(self).toks(), old(self).state().pos), 0int,
    {
        reveal(expr);
        let start_pos = self.pos;
        let size = self.array_size_here();
        if self.consume(TokenCode::LBRACKET) {
            // The size expression is optional.
            self.expr()?;
            t.elements = size;
            if self.consume(TokenCode::RBRACKET) {
                return Ok(true);
            } else {
                return Err(self.err(SyntaxErrorKind::MissingRbracketInArrayDecl));
            }
        }
        self.pos = start_pos;
        Ok(false)
    }

    /// `expr: expr_assign`
    fn expr(&mut self) -> (r: Result<bool, SyntaxError>)
        requires
            old(self).wf(),
        ensures
            final(self).sym_table == old(self).sym_table,
            ruled(*old(self), r, *final(self), expr(old(self).toks(), old(self).state())),
        decreases remaining(old(self).toks(), old(self).state().pos), 40int,
    {
        reveal(expr);
        self.expr_assign()
    }

    /// `expr_assign: _u ASSIGN expr_assign | expr_or`
    fn expr_assign(&mut self) -> (r: Result<bool, SyntaxError>)
        requires
            old(self).wf(),
        ensures
            final(self).sym_table == old(self).sym_table,
            ruled(*old(self), r, *final(self), expr_assign(old(self).toks(), old(self).state())),
        decreases remaining(old(self).toks(), old(self).state().pos), 38int,
    {
        reveal(expr);
        let start_pos = self.pos;
        if self._u()? {
            if self.consume(TokenCode::ASSIGN) {
                if self.expr_assign()? {
                    return Ok(true);
                }
                return Err(self.err(SyntaxErrorKind::MissingExprAfterAssign));
            }
        }
        // Go back and try expr_or.
        self.pos = start_pos;
        if self.expr_or()? {
            return Ok(true);
        }
        self.pos = start_pos;
        Ok(false)
    }

    /// The `expr_or` level: operands of the next tighter level joined by
    /// its operators, from the left.
    fn expr_or(&mut self) -> (r: Result<bool, SyntaxError>)
        requires
            old(self).wf(),
        ensures
            final(self).sym_table == old(self).sym_table,
            ruled(*old(self), r, *final(self), binary(old(self).toks(), old(self).state(), BinLevel::Or)),
        decreases remaining(old(self).toks(), old(self).state().pos), 36int,
    {
        reveal(expr);
        let start_pos = self.pos;
        if self.expr_and()? {
            let ghost first = self.state();
            loop
                invariant
                    self.wf(),
                    self.toks() == old(self).toks(),
                    self.sym_table == old(self).sym_table,
                    self.state().pos > old(self).state().pos,
                    self.state().depth == old(self).state().depth,
                    binary_tail(self.toks(), self.state(), BinLevel::Or) == binary_tail(
                        self.toks(),
                        first,
                        BinLevel::Or,
                    ),
                    binary(old(self).toks(), old(self).state(), BinLevel::Or) == match binary_tail(
                        self.toks(),
                        first,
                        BinLevel::Or,
                    ) {
                        Run::Done(end) => yes_to(old(self).state(), end),
                        Run::Fail(k, l) => Step::Fail(k, l),
                    },
                ensures
                    self.wf(),
                    self.toks() == old(self).toks(),
                    self.sym_table == old(self).sym_table,
                    self.state().pos > old(self).state().pos,
                    self.state().depth == old(self).state().depth,
                    binary_tail(self.toks(), self.state(), BinLevel::Or) == Run::Done(self.state()),
                    binary_tail(self.toks(), self.state(), BinLevel::Or) == binary_tail(
                        self.toks(),
                        first,
                        BinLevel::Or,
                    ),
                decreases remaining(self.toks(), self.state().pos),
            {
                proof {
                    reveal(expr);
                }
                if self.consume(TokenCode::OR) {
                    if self.expr_and()? {
                        continue;
                    }
                    return Err(self.err(SyntaxErrorKind::MissingExprAfterOr));
                }
                break;
            }
            return Ok(true);
        }
        self.pos = start_pos;
        Ok(false)
    }

    /// The `expr_and` level: operands of the next tighter level joined by
    /// its operators, from the left.
    fn expr_and(&mut self) -> (r: Result<bool, SyntaxError>)
        requires
            old(self).wf(),
        ensures
            final(self).sym_table == old(self).sym_table,
            ruled(*old(self), r, *final(self), binary(old(self).toks(), old(self).state(), BinLevel::And)),
        decreases remaining(old(self).toks(), old(self).state().pos), 34int,
    {
        reveal(expr);
        let start_pos = self.pos;
        if self.expr_eq()? {
            let ghost first = self.state();
            loop
                invariant
                    self.wf(),
                    self.toks() == old(self).toks(),
                    self.sym_table == old(self).sym_table,
                    self.state().pos > old(self).state().pos,
                    self.state().depth == old(self).state().depth,
                    binary_tail(self.toks(), self.state(), BinLevel::And) == binary_tail(
                        self.toks(),
                        first,
                        BinLevel::And,
                    ),
                    binary(old(self).toks(), old(self).state(), BinLevel::And) == match binary_tail(
                        self.toks(),
                        first,
                        BinLevel::And,
                    ) {
                        Run::Done(end) => yes_to(old(self).state(), end),
                        Run::Fail(k, l) => Step::Fail(k, l),
                    },
                ensures
                    self.wf(),
                    self.toks() == old(self).toks(),
                    self.sym_table == old(self).sym_table,
                    self.state().pos > old(self).state().pos,
                    self.state().depth == old(self).state().depth,
                    binary_tail(self.toks(), self.state(), BinLevel::And) == Run::Done(self.state()),
                    binary_tail(self.toks(), self.state(), BinLevel::And) == binary_tail(
                        self.toks(),
                        first,
                        BinLevel::And,
                    ),
                decreases remaining(self.toks(), self.state().pos),
            {
                proof {
                    reveal(expr);
                }
                if self.consume(TokenCode::AND) {
                    if self.expr_eq()? {
                        continue;
                    }
                    return Err(self.err(SyntaxErrorKind::MissingExprAfterAnd));
                }
                break;
            }
            return Ok(true);
        }
        self.pos = start_pos;
        Ok(false)
    }

    /// The `expr_eq` level: operands of the next tighter level joined by
    /// its operators, from the left.
    fn expr_eq(&mut self) -> (r: Result<bool, SyntaxError>)
        requires
            old(self).wf(),
        ensures
            final(self).sym_table == old(self).sym_table,
            ruled(*old(self), r, *final(self), binary(old(self).toks(), old(self).state(), BinLevel::Equality)),
        decreases remaining(old(self).toks(), old(self).state().pos), 32int,
    {
        reveal(expr);
        let start_pos = self.pos;
        if self.expr_rel()? {
            let ghost first = self.state();
            loop
                invariant
                    self.wf(),
                    self.toks() == old(self).toks(),
                    self.sym_table == old(self).sym_table,
                    self.state().pos > old(self).state().pos,
                    self.state().depth == old(self).state().depth,
                    binary_tail(self.toks(), self.state(), BinLevel::Equality) == binary_tail(
                        self.toks(),
                        first,
                        BinLevel::Equality,
                    ),
                    binary(old(self).toks(), old(self).state(), BinLevel::Equality) == match binary_tail(
                        self.toks(),
                        first,
                        BinLevel::Equality,
                    ) {
                        Run::Done(end) => yes_to(old(self).state(), end),
                        Run::Fail(k, l) => Step::Fail(k, l),
                    },
                ensures
                    self.wf(),
                    self.toks() == old(self).toks(),
                    self.sym_table == old(self).sym_table,
                    self.state().pos > old(self).state().pos,
                    self.state().depth == old(self).state().depth,
                    binary_tail(self.toks(), self.state(), BinLevel::Equality) == Run::Done(self.state()),
                    binary_tail(self.toks(), self.state(), BinLevel::Equality) == binary_tail(
                        self.toks(),
                        first,
                        BinLevel::Equality,
                    ),
                decreases remaining(self.toks(), self.state().pos),
            {
                proof {
                    reveal(expr);
                }
                if self.consume(TokenCode::EQUAL) || self.consume(TokenCode::NOTEQ) {
                    if self.expr_rel()? {
                        continue;
                    }
                    return Err(self.err(SyntaxErrorKind::MissingExprAfterEquality));
                }
                break;
            }
            return Ok(true);
        }
        self.pos = start_pos;
        Ok(false)
    }

    /// The `expr_rel` level: operands of the next tighter level joined by
    /// its operators, from the left.
    fn expr_rel(&mut self) -> (r: Result<bool, SyntaxError>)
        requires
            old(self).wf(),
        ensures
            final(self).sym_table == old(self).sym_table,
            ruled(*old(self), r, *final(self), binary(old(self).toks(), old(self).state(), BinLevel::Relational)),
        decreases remaining(old(self).toks(), old(self).state().pos), 30int,
    {
        reveal(expr);
        let start_pos = self.pos;
        if self.expr_add()? {
            let ghost first = self.state();
            loop
                invariant
                    self.wf(),
                    self.toks() == old(self).toks(),
                    self.sym_table == old(self).sym_table,
                    self.state().pos > old(self).state().pos,
                    self.state().depth == old(self).state().depth,
                    binary_tail(self.toks(), self.state(), BinLevel::Relational) == binary_tail(
                        self.toks(),
                        first,
                        BinLevel::Relational,
                    ),
                    binary(old(self).toks(), old(self).state(), BinLevel::Relational) == match binary_tail(
                        self.toks(),
                        first,
                        BinLevel::Relational,
                    ) {
                        Run::Done(end) => yes_to(old(self).state(), end),
                        Run::Fail(k, l) => Step::Fail(k, l),
                    },
                ensures
                    self.wf(),
                    self.toks() == old(self).toks(),
                    self.sym_table == old(self).sym_table,
                    self.state().pos > old(self).state().pos,
                    self.state().depth == old(self).state().depth,
                    binary_tail(self.toks(), self.state(), BinLevel::Relational) == Run::Done(self.state()),
                    binary_tail(self.toks(), self.state(), BinLevel::Relational) == binary_tail(
                        self.toks(),
                        first,
                        BinLevel::Relational,
                    ),
                decreases remaining(self.toks(), self.state().pos),
            {
                proof {
                    reveal(expr);
                }
                if self.consume(TokenCode::LESS) || self.consume(TokenCode::LESSEQ) || self.consume(TokenCode::GREATER) || self.consume(TokenCode::GREATEREQ) {
                    if self.expr_add()? {
                        continue;
                    }
                    return Err(self.err(SyntaxErrorKind::MissingExprAfterRelational));
                }
                break;
            }
            return Ok(true);
        }
        self.pos = start_pos;
        Ok(false)
    }

    /// The `expr_add` level: operands of the next tighter level joined by
    /// its operators, from the left.
    fn expr_add(&mut self) -> (r: Result<bool, SyntaxError>)
        requires
            old(self).wf(),
        ensures
            final(self).sym_table == old(self).sym_table,
            ruled(*old(self), r, *final(self), binary(old(self).toks(), old(self).state(), BinLevel::Additive)),
        decreases remaining(old(self).toks(), old(self).state().pos), 28int,
    {
        reveal(expr);
        let start_pos = self.pos;
        if self.expr_mul()? {
            let ghost first = self.state();
            loop
                invariant
                    self.wf(),
                    self.toks() == old(self).toks(),
                    self.sym_table == old(self).sym_table,
                    self.state().pos > old(self).state().pos,
                    self.state().depth == old(self).state().depth,
                    binary_tail(self.toks(), self.state(), BinLevel::Additive) == binary_tail(
                        self.toks(),
                        first,
                        BinLevel::Additive,
                    ),
                    binary(old(self).toks(), old(self).state(), BinLevel::Additive) == match binary_tail(
                        self.toks(),
                        first,
                        BinLevel::Additive,
                    ) {
                        Run::Done(end) => yes_to(old(self).state(), end),
                        Run::Fail(k, l) => Step::Fail(k, l),
                    },
                ensures
                    self.wf(),
                    self.toks() == old(self).toks(),
                    self.sym_table == old(self).sym_table,
                    self.state().pos > old(self).state().pos,
                    self.state().depth == old(self).state().depth,
                    binary_tail(self.toks(), self.state(), BinLevel::Additive) == Run::Done(self.state()),
                    binary_tail(self.toks(), self.state(), BinLevel::Additive) == binary_tail(
                        self.toks(),
                        first,
                        BinLevel::Additive,
                    ),
                decreases remaining(self.toks(), self.state().pos),
            {
                proof {
                    reveal(expr);
                }
                if self.consume(TokenCode::ADD) || self.consume(TokenCode::SUB) {
                    if self.expr_mul()? {
                        continue;
                    }
                    return Err(self.err(SyntaxErrorKind::MissingExprAfterAdditive));
                }
                break;
            }
            return Ok(true);
        }
        self.pos = start_pos;
        Ok(false)
    }

    /// The `expr_mul` level: operands of the next tighter level joined by
    /// its operators, from the left.
    fn expr_mul(&mut self) -> (r: Result<bool, SyntaxError>)
        requires
            old(self).wf(),
        ensures
            final(self).sym_table == old(self).sym_table,
            ruled(*old(self), r, *final(self), binary(old(self).toks(), old(self).state(), BinLevel::Multiplicative)),
        decreases remaining(old(self).toks(), old(self).state().pos), 26int,
    {
        reveal(expr);
        let start_pos = self.pos;
        if self.expr_cast()? {
            let ghost first = self.state();
            loop
                invariant
                    self.wf(),
                    self.toks() == old(self).toks(),
                    self.sym_table == old(self).sym_table,
                    self.state().pos > old(self).state().pos,
                    self.state().depth == old(self).state().depth,
                    binary_tail(self.toks(), self.state(), BinLevel::Multiplicative) == binary_tail(
                        self.toks(),
                        first,
                        BinLevel::Multiplicative,
                    ),
                    binary(old(self).toks(), old(self).state(), BinLevel::Multiplicative) == match binary_tail(
                        self.toks(),
                        first,
                        BinLevel::Multiplicative,
                    ) {
                        Run::Done(end) => yes_to(old(self).state(), end),
                        Run::Fail(k, l) => Step::Fail(k, l),
                    },
                ensures
                    self.wf(),
                    self.toks() == old(self).toks(),
                    self.sym_table == old(self).sym_table,
                    self.state().pos > old(self).state().pos,
                    self.state().depth == old(self).state().depth,
                    binary_tail(self.toks(), self.state(), BinLevel::Multiplicative) == Run::Done(self.state()),
                    binary_tail(self.toks(), self.state(), BinLevel::Multiplicative) == binary_tail(
                        self.toks(),
                        first,
                        BinLevel::Multiplicative,
                    ),
                decreases remaining(self.toks(), self.state().pos),
            {
                proof {
                    reveal(expr);
                }
                if self.consume(TokenCode::MUL) || self.consume(TokenCode::DIV) {
                    if self.expr_cast()? {
                        continue;
                    }
                    return Err(self.err(SyntaxErrorKind::MissingExprAfterMultiplicative));
                }
                break;
            }
            return Ok(true);
        }
        self.pos = start_pos;
        Ok(false)
    }

    /// `expr_cast: LPAR type_base array_decl? RPAR expr_cast | _u`
    fn expr_cast(&mut self) -> (r: Result<bool, SyntaxError>)
        requires
            old(self).wf(),
        ensures
            final(self).sym_table == old(self).sym_table,
            ruled(*old(self), r, *final(self), expr_cast(old(self).toks(), old(self).state())),
        decreases remaining(old(self).toks(), old(self).state().pos), 24int,
    {
        reveal(expr);
        let start_pos = self.pos;
        if self.consume(TokenCode::LPAR) {
            if let Some(mut base_type) = self.type_base()? {
                self.array_decl(&mut base_type)?;
                if self.consume(TokenCode::RPAR) {
                    if self.expr_cast()? {
                        return Ok(true);
                    }
                }
            }
        }
        self.pos = start_pos;
        if self._u()? {
            return Ok(true);
        }
        Ok(false)
    }

    /// `_u: (SUB | NOT) _u | expr_postfix`
    fn _u(&mut self) -> (r: Result<bool, SyntaxError>)
        requires
            old(self).wf(),
        ensures
            final(self).sym_table == old(self).sym_table,
            ruled(*old(self), r, *final(self), unary(old(self).toks(), old(self).state())),
        decreases remaining(old(self).toks(), old(self).state().pos), 22int,
    {
        reveal(expr);
        let start_pos = self.pos;
        if self.consume(TokenCode::SUB) || self.consume(TokenCode::NOT) {
            if self._u()? {
                return Ok(true);
            }
            return Err(self.err(SyntaxErrorKind::MissingExprAfterUnary));
        }
        self.pos = start_pos;
        if self.expr_postfix()? {
            return Ok(true);
        }
        Ok(false)
    }

    /// `expr_postfix: expr_primary (LBRACKET expr RBRACKET | DOT ID)*`
    fn expr_postfix(&mut self) -> (r: Result<bool, SyntaxError>)
        requires
            old(self).wf(),
        ensures
            final(self).sym_table == old(self).sym_table,
            ruled(*old(self), r, *final(self), expr_postfix(old(self).toks(), old(self).state())),
        decreases remaining(old(self).toks(), old(self).state().pos), 20int,
    {
        reveal(expr);
        let start_pos = self.pos;
        if self.expr_primary()? {
            let ghost first = self.state();
            loop
                invariant
                    self.wf(),
                    self.toks() == old(self).toks(),
                    self.sym_table == old(self).sym_table,
                    self.state().pos > old(self).state().pos,
                    self.state().depth == old(self).state().depth,
                    postfix_tail(self.toks(), self.state()) == postfix_tail(self.toks(), first),
                    expr_postfix(old(self).toks(), old(self).state()) == match postfix_tail(
                        self.toks(),
                        first,
                    ) {
                        Run::Done(end) => yes_to(old(self).state(), end),
                        Run::Fail(k, l) => Step::Fail(k, l),
                    },
                ensures
                    self.wf(),
                    self.toks() == old(self).toks(),
                    self.sym_table == old(self).sym_table,
                    self.state().pos > old(self).state().pos,
                    self.state().depth == old(self).state().depth,
                    postfix_tail(self.toks(), self.state()) == Run::Done(self.state()),
                    postfix_tail(self.toks(), self.state()) == postfix_tail(self.toks(), first),
                decreases remaining(self.toks(), self.state().pos),
            {
                proof {
                    reveal(expr);
                }
                if self.consume(TokenCode::LBRACKET) {
                    if !self.expr()? {
                        return Err(self.err(SyntaxErrorKind::MissingExprInIndex));
                    }
                    if !self.consume(TokenCode::RBRACKET) {
                        return Err(self.err(SyntaxErrorKind::MissingRbracketAfterIndex));
                    }
                    continue;
                }
                if self.consume(TokenCode::DOT) {
                    if !self.consume_id() {
                        return Err(self.err(SyntaxErrorKind::MissingIdAfterDot));
                    }
                    continue;
                }
                break;
            }
            return Ok(true);
        }
        self.pos = start_pos;
        Ok(false)
    }

    /// `expr_primary: ID (LPAR (expr (COMMA expr)*)? RPAR)? | CT_INT | CT_REAL
    /// | CT_CHAR | CT_STRING | LPAR expr RPAR`
    fn expr_primary(&mut self) -> (r: Result<bool, SyntaxError>)
        requires
            old(self).wf(),
        ensures
            final(self).sym_table == old(self).sym_table,
            ruled(*old(self), r, *final(self), expr_primary(old(self).toks(), old(self).state())),
        decreases remaining(old(self).toks(), old(self).state().pos), 18int,
    {
        reveal(expr);
        let start_pos = self.pos;
        if self.consume_id() {
            self.call_suffix()?;
            return Ok(true);
        }
        if self.consume_ct_int() {
            return Ok(true);
        }
        if self.consume_ct_real() {
            return Ok(true);
        }
        if self.consume_ct_char() {
            return Ok(true);
        }
        if self.consume_ct_string() {
            return Ok(true);
        }
        if self.consume(TokenCode::LPAR) {
            if self.expr()? {
                if self.consume(TokenCode::RPAR) {
                    return Ok(true);
                } else {
                    return Err(self.err(SyntaxErrorKind::MissingRparInGroup));
                }
            }
        }
        self.pos = start_pos;
        Ok(false)
    }

    /// The optional argument list of a call, after the name that is called.
    fn call_suffix(&mut self) -> (r: Result<(), SyntaxError>)
        requires
            old(self).wf(),
        ensures
            final(self).sym_table == old(self).sym_table,
            ran(*old(self), r, *final(self), call_suffix(old(self).toks(), old(self).state())),
        decreases remaining(old(self).toks(), old(self).state().pos), 17int,
    {
        reveal(expr);
        if self.consume(TokenCode::LPAR) {
            if self.expr()? {
                self.call_args()?;
            }
            if !self.consume(TokenCode::RPAR) {
                return Err(self.err(SyntaxErrorKind::MissingRparAfterCallArgs));
            }
        }
        Ok(())
    }

    /// The repeated `COMMA expr` of the arguments of a call.
    fn call_args(&mut self) -> (r: Result<(), SyntaxError>)
        requires
            old(self).wf(),
        ensures
            final(self).sym_table == old(self).sym_table,
            ran(*old(self), r, *final(self), args_tail(old(self).toks(), old(self).state())),
        decreases remaining(old(self).toks(), old(self).state().pos), 1int,
    {
        reveal(expr);
        loop
            invariant
                self.wf(),
                self.toks() == old(self).toks(),
                self.sym_table == old(self).sym_table,
                self.state().pos >= old(self).state().pos,
                self.state().depth == old(self).state().depth,
                args_tail(self.toks(), self.state()) == args_tail(old(self).toks(), old(self).state()),
            ensures
                self.wf(),
                self.toks() == old(self).toks(),
                self.sym_table == old(self).sym_table,
                self.state().pos >= old(self).state().pos,
                self.state().depth == old(self).state().depth,
                args_tail(self.toks(), self.state()) == Run::Done(self.state()),
                args_tail(self.toks(), self.state()) == args_tail(old(self).toks(), old(self).state()),
            decreases remaining(self.toks(), self.state().pos),
        {
            proof {
                reveal(expr);
            }
            if self.consume(TokenCode::COMMA) {
                if !self.expr()? {
                    return Err(self.err(SyntaxErrorKind::ExpectedExprAfterCommaInCall));
                }
                continue;
            }
            break;
        }
        Ok(())
    }

    /// Declares a variable or parameter named `name` of type `t` (an array
    /// if an array declarator follows) in the current scope.
    fn declare_var(&mut self, name: String, t: &Type, kind: SymbolKind) -> (r: Result<(), SyntaxError>)
        requires
            old(self).wf(),
        ensures
            final(self).sym_table.owner_idx == old(self).sym_table.owner_idx,
            r is Ok ==> grows_at(old(self).sym_table.symbols@, final(self).sym_table.symbols@, old(self).sym_table.current_depth as int),
            ran(*old(self), r, *final(self), declare_var(old(self).toks(), old(self).state(), name, *t, kind)),
    {
        let mut current_type = t.clone();
        self.array_decl(&mut current_type)?;
        let sym_name = name.clone();
        let mut sym = Symbol::new(name, kind, self.sym_table.current_depth);
        sym.type_info = current_type;
        proof {
            law_define_within(self.sym_table.symbols@, sym, self.sym_table.current_depth);
            lemma_grows_define(self.sym_table.symbols@, sym, self.sym_table.current_depth);
        }
        if let Err(_) = self.sym_table.add_symbol(sym) {
            return Err(self.err(SyntaxErrorKind::Redefinition(sym_name)));
        }
        Ok(())
    }

    /// The repeated `COMMA ID array_decl?` of a variable definition.
    fn var_list(&mut self, base_type: &Type) -> (r: Result<(), SyntaxError>)
        requires
            old(self).wf(),
        ensures
            final(self).sym_table.owner_idx == old(self).sym_table.owner_idx,
            r is Ok ==> grows_at(old(self).sym_table.symbols@, final(self).sym_table.symbols@, old(self).sym_table.current_depth as int),
            ran(*old(self), r, *final(self), var_tail(old(self).toks(), old(self).state(), *base_type)),
    {
        proof {
            lemma_grows_refl(self.sym_table.symbols@, self.sym_table.current_depth as int);
        }
        loop
            invariant
                self.sym_table.owner_idx == old(self).sym_table.owner_idx,
                grows_at(old(self).sym_table.symbols@, self.sym_table.symbols@, old(self).sym_table.current_depth as int),
                self.wf(),
                self.toks() == old(self).toks(),
                self.state().pos >= old(self).state().pos,
                self.state().depth == old(self).state().depth,
                var_tail(self.toks(), self.state(), *base_type) == var_tail(
                    old(self).toks(),
                    old(self).state(),
                    *base_type,
                ),
            ensures
                self.sym_table.owner_idx == old(self).sym_table.owner_idx,
                grows_at(old(self).sym_table.symbols@, self.sym_table.symbols@, old(self).sym_table.current_depth as int),
                self.wf(),
                self.toks() == old(self).toks(),
                self.state().pos >= old(self).state().pos,
                self.state().depth == old(self).state().depth,
                var_tail(self.toks(), self.state(), *base_type) == Run::Done(self.state()),
                var_tail(self.toks(), self.state(), *base_type) == var_tail(
                    old(self).toks(),
                    old(self).state(),
                    *base_type,
                ),
            decreases remaining(self.toks(), self.state().pos),
        {
            if self.consume(TokenCode::COMMA) {
                if let Some(next_var_name) = self.consume_id_name() {
                    let ghost before = self.sym_table.symbols@;
                    self.declare_var(next_var_name, base_type, SymbolKind::Var)?;
                    proof {
                        lemma_grows_trans(
                            old(self).sym_table.symbols@,
                            before,
                            self.sym_table.symbols@,
                            old(self).sym_table.current_depth as int,
                        );
                    }
                } else {
                    return Err(self.err(SyntaxErrorKind::MissingVarNameAfterComma));
                }
                continue;
            }
            break;
        }
        Ok(())
    }

    /// `var_def: type_base ID array_decl? (COMMA ID array_decl?)* SEMICOLON`;
    /// defines each variable in the current scope.
    fn var_def(&mut self) -> (r: Result<bool, SyntaxError>)
        requires
            old(self).wf(),
        ensures
            final(self).sym_table.owner_idx == old(self).sym_table.owner_idx,
            r is Ok ==> grows_at(old(self).sym_table.symbols@, final(self).sym_table.symbols@, old(self).sym_table.current_depth as int),
            ruled(*old(self), r, *final(self), var_def(old(self).toks(), old(self).state())),
    {
        reveal(var_def);
        proof {
            lemma_grows_refl(self.sym_table.symbols@, self.sym_table.current_depth as int);
        }
        let start_pos = self.pos;
        if let Some(base_type) = self.type_base()? {
            if let Some(var_name) = self.consume_id_name() {
                self.declare_var(var_name, &base_type, SymbolKind::Var)?;
                let ghost mid = self.sym_table.symbols@;
                self.var_list(&base_type)?;
                proof {
                    lemma_grows_trans(
                        old(self).sym_table.symbols@,
                        mid,
                        self.sym_table.symbols@,
                        old(self).sym_table.current_depth as int,
                    );
                }
                if self.consume(TokenCode::SEMICOLON) {
                    return Ok(true);
                } else {
                    return Err(self.err(SyntaxErrorKind::MissingSemicolonAfterVarDecl));
                }
            }
        }
        self.pos = start_pos;
        Ok(false)
    }

    /// `IF LPAR expr RPAR stm (ELSE stm)?`, after the `IF`.
    fn if_rest(&mut self) -> (r: Result<(), SyntaxError>)
        requires
            old(self).wf(),
        ensures
            final(self).sym_table.owner_idx == old(self).sym_table.owner_idx,
            r is Ok ==> final(self).sym_table.symbols@ == old(self).sym_table.symbols@,
            ran(*old(self), r, *final(self), if_rest(old(self).toks(), old(self).state())),
        decreases remaining(old(self).toks(), old(self).state().pos), 4int,
    {
        if !self.consume(TokenCode::LPAR) {
            return Err(self.err(SyntaxErrorKind::MissingLparAfterIf));
        }
        if !self.expr()? {
            return Err(self.err(SyntaxErrorKind::InvalidIfCondition));
        }
        if !self.consume(TokenCode::RPAR) {
            return Err(self.err(SyntaxErrorKind::MissingRparAfterIfCondition));
        }
        if !self.stm()? {
            return Err(self.err(SyntaxErrorKind::MissingIfBranch));
        }
        if self.consume(TokenCode::ELSE) {
            if !self.stm()? {
                return Err(self.err(SyntaxErrorKind::MissingElseBranch));
            }
        }
        Ok(())
    }

    /// `WHILE LPAR expr RPAR stm`, after the `WHILE`.
    fn while_rest(&mut self) -> (r: Result<(), SyntaxError>)
        requires
            old(self).wf(),
        ensures
            final(self).sym_table.owner_idx == old(self).sym_table.owner_idx,
            r is Ok ==> final(self).sym_table.symbols@ == old(self).sym_table.symbols@,
            ran(*old(self), r, *final(self), while_rest(old(self).toks(), old(self).state())),
        decreases remaining(old(self).toks(), old(self).state().pos), 4int,
    {
        if !self.consume(TokenCode::LPAR) {
            return Err(self.err(SyntaxErrorKind::MissingLparAfterWhile));
        }
        if !self.expr()? {
            return Err(self.err(SyntaxErrorKind::InvalidWhileCondition));
        }
        if !self.consume(TokenCode::RPAR) {
            return Err(self.err(SyntaxErrorKind::MissingRparAfterWhileCondition));
        }
        if !self.stm()? {
            return Err(self.err(SyntaxErrorKind::MissingWhileBody));
        }
        Ok(())
    }

    /// `FOR LPAR expr? SEMICOLON expr? SEMICOLON expr? RPAR`, after the
    /// `FOR`.
    fn for_header(&mut self) -> (r: Result<(), SyntaxError>)
        requires
            old(self).wf(),
        ensures
            final(self).sym_table.owner_idx == old(self).sym_table.owner_idx,
            r is Ok ==> final(self).sym_table.symbols@ == old(self).sym_table.symbols@,
            ran(*old(self), r, *final(self), for_header(old(self).toks(), old(self).state())),
    {
        if !self.consume(TokenCode::LPAR) {
            return Err(self.err(SyntaxErrorKind::MissingLparAfterFor));
        }
        // Each of the three expressions is optional.
        self.expr()?;
        if !self.consume(TokenCode::SEMICOLON) {
            return Err(self.err(SyntaxErrorKind::MissingFirstSemicolonInFor));
        }
        self.expr()?;
        if !self.consume(TokenCode::SEMICOLON) {
            return Err(self.err(SyntaxErrorKind::MissingSecondSemicolonInFor));
        }
        self.expr()?;
        if !self.consume(TokenCode::RPAR) {
            return Err(self.err(SyntaxErrorKind::MissingRparInFor));
        }
        Ok(())
    }

    /// `FOR LPAR expr? SEMICOLON expr? SEMICOLON expr? RPAR stm`, after the
    /// `FOR`.
    fn for_rest(&mut self) -> (r: Result<(), SyntaxError>)
        requires
            old(self).wf(),
        ensures
            final(self).sym_table.owner_idx == old(self).sym_table.owner_idx,
            r is Ok ==> final(self).sym_table.symbols@ == old(self).sym_table.symbols@,
            ran(*old(self), r, *final(self), for_rest(old(self).toks(), old(self).state())),
        decreases remaining(old(self).toks(), old(self).state().pos), 4int,
    {
        self.for_header()?;
        if !self.stm()? {
            return Err(self.err(SyntaxErrorKind::MissingForBody));
        }
        Ok(())
    }

    /// `stm: stm_compound | IF LPAR expr RPAR stm (ELSE stm)? | WHILE LPAR
    /// expr RPAR stm | FOR LPAR expr? SEMICOLON expr? SEMICOLON expr? RPAR stm
    /// | BREAK SEMICOLON | RETURN expr? SEMICOLON | expr? SEMICOLON`.
    /// A statement leaves the symbol table as it was: what a compound
    /// statement defines goes when it closes.
    fn stm(&mut self) -> (r: Result<bool, SyntaxError>)
        requires
            old(self).wf(),
        ensures
            final(self).sym_table.owner_idx == old(self).sym_table.owner_idx,
            r is Ok ==> final(self).sym_table.symbols@ == old(self).sym_table.symbols@,
            ruled(*old(self), r, *final(self), stm(old(self).toks(), old(self).state())),
        decreases remaining(old(self).toks(), old(self).state().pos), 2int,
    {
        let start_pos = self.pos;
        if self.stm_compound(true)? {
            return Ok(true);
        }
        if self.consume(TokenCode::IF) {
            self.if_rest()?;
            return Ok(true);
        }
        if self.consume(TokenCode::WHILE) {
            self.while_rest()?;
            return Ok(true);
        }
        if self.consume(TokenCode::FOR) {
            self.for_rest()?;
            return Ok(true);
        }
        if self.consume(TokenCode::BREAK) {
            if self.consume(TokenCode::SEMICOLON) {
                return Ok(true);
            }
            return Err(self.err(SyntaxErrorKind::MissingSemicolonAfterBreak));
        }
        if self.consume(TokenCode::RETURN) {
            // The returned expression is optional.
            self.expr()?;
            if self.consume(TokenCode::SEMICOLON) {
                return Ok(true);
            }
            return Err(self.err(SyntaxErrorKind::MissingSemicolonAfterReturn));
        }
        if self.expr()? {
            if self.consume(TokenCode::SEMICOLON) {
                return Ok(true);
            }
            return Err(self.err(SyntaxErrorKind::MissingSemicolonAfterExpr));
        } else if self.consume(TokenCode::SEMICOLON) {
            // The empty statement.
            return Ok(true);
        }
        self.pos = start_pos;
        Ok(false)
    }

    /// The `(var_def | stm)*` of a compound statement.
    fn block_body(&mut self) -> (r: Result<(), SyntaxError>)
        requires
            old(self).wf(),
        ensures
            final(self).sym_table.owner_idx == old(self).sym_table.owner_idx,
            r is Ok ==> grows_at(old(self).sym_table.symbols@, final(self).sym_table.symbols@, old(self).sym_table.current_depth as int),
            ran(*old(self), r, *final(self), block_body(old(self).toks(), old(self).state())),
        decreases remaining(old(self).toks(), old(self).state().pos), 5int,
    {
        proof {
            lemma_grows_refl(self.sym_table.symbols@, self.sym_table.current_depth as int);
        }
        loop
            invariant
                self.sym_table.owner_idx == old(self).sym_table.owner_idx,
                grows_at(old(self).sym_table.symbols@, self.sym_table.symbols@, old(self).sym_table.current_depth as int),
                self.wf(),
                self.toks() == old(self).toks(),
                self.state().pos >= old(self).state().pos,
                self.state().depth == old(self).state().depth,
                block_body(self.toks(), self.state()) == block_body(old(self).toks(), old(self).state()),
            ensures
                self.sym_table.owner_idx == old(self).sym_table.owner_idx,
                grows_at(old(self).sym_table.symbols@, self.sym_table.symbols@, old(self).sym_table.current_depth as int),
                self.wf(),
                self.toks() == old(self).toks(),
                self.state().pos >= old(self).state().pos,
                self.state().depth == old(self).state().depth,
                block_body(self.toks(), self.state()) == Run::Done(self.state()),
                block_body(self.toks(), self.state()) == block_body(old(self).toks(), old(self).state()),
            decreases remaining(self.toks(), self.state().pos),
        {
            // No rule applies past the last token.
            if self.pos >= self.tokens.len() {
                break;
            }
            let ghost before = self.sym_table.symbols@;
            if self.var_def()? {
                proof {
                    lemma_grows_trans(
                        old(self).sym_table.symbols@,
                        before,
                        self.sym_table.symbols@,
                        old(self).sym_table.current_depth as int,
                    );
                }
                continue;
            }
            if self.stm()? {
                continue;
            }
            break;
        }
        Ok(())
    }

    /// `stm_compound: LACC (var_def | stm)* RACC`, in a scope of its own when
    /// `new_domain` holds.
    fn stm_compound(&mut self, new_domain: bool) -> (r: Result<bool, SyntaxError>)
        requires
            old(self).wf(),
        ensures
            final(self).sym_table.owner_idx == old(self).sym_table.owner_idx,
            r is Ok && new_domain ==> final(self).sym_table.symbols@ == old(self).sym_table.symbols@,
            r is Ok && !new_domain ==> grows_at(old(self).sym_table.symbols@, final(self).sym_table.symbols@, old(self).sym_table.current_depth as int),
            ruled(*old(self), r, *final(self), stm_compound(old(self).toks(), old(self).state(), new_domain)),
        decreases remaining(old(self).toks(), old(self).state().pos), 1int,
    {
        proof {
            lemma_grows_refl(self.sym_table.symbols@, self.sym_table.current_depth as int);
        }
        let start_pos = self.pos;
        if self.consume(TokenCode::LACC) {
            if new_domain {
                self.sym_table.push_domain();
            }
            self.block_body()?;
            if self.consume(TokenCode::RACC) {
                if new_domain {
                    proof {
                        law_close_within(self.sym_table.symbols@, self.sym_table.current_depth);
                        law_close_after_growth(
                            old(self).sym_table.symbols@,
                            self.sym_table.symbols@,
                            old(self).sym_table.current_depth,
                        );
                    }
                    self.sym_table.drop_domain();
                }
                return Ok(true);
            } else {
                return Err(self.err(SyntaxErrorKind::MissingRaccInCompound));
            }
        }
        self.pos = start_pos;
        Ok(false)
    }

    /// `fn_param: type_base ID array_decl?`; defines the parameter in the
    /// function's scope.
    fn fn_param(&mut self) -> (r: Result<bool, SyntaxError>)
        requires
            old(self).wf(),
        ensures
            ruled(*old(self), r, *final(self), fn_param(old(self).toks(), old(self).state())),
    {
        reveal(fn_param);
        let start_pos = self.pos;
        if let Some(base_type) = self.type_base()? {
            if let Some(var_name) = self.consume_id_name() {
                self.declare_var(var_name, &base_type, SymbolKind::Param)?;
                return Ok(true);
            } else {
                return Err(self.err(SyntaxErrorKind::MissingIdInParam));
            }
        }
        self.pos = start_pos;
        Ok(false)
    }

    /// The repeated `COMMA fn_param` of a parameter list.
    fn param_list(&mut self) -> (r: Result<(), SyntaxError>)
        requires
            old(self).wf(),
        ensures
            ran(*old(self), r, *final(self), param_tail(old(self).toks(), old(self).state())),
    {
        loop
            invariant
                self.wf(),
                self.toks() == old(self).toks(),
                self.state().pos >= old(self).state().pos,
                self.state().depth == old(self).state().depth,
                param_tail(self.toks(), self.state()) == param_tail(old(self).toks(), old(self).state()),
            ensures
                self.wf(),
                self.toks() == old(self).toks(),
                self.state().pos >= old(self).state().pos,
                self.state().depth == old(self).state().depth,
                param_tail(self.toks(), self.state()) == Run::Done(self.state()),
                param_tail(self.toks(), self.state()) == param_tail(old(self).toks(), old(self).state()),
            decreases remaining(self.toks(), self.state().pos),
        {
            if self.consume(TokenCode::COMMA) {
                if !self.fn_param()? {
                    return Err(self.err(SyntaxErrorKind::ExpectedParamAfterComma));
                }
                continue;
            }
            break;
        }
        Ok(())
    }

    /// The parameters and body of a function, after its `LPAR`, with the
    /// function defined and its scope open; closes the scope at the end.
    fn fn_rest(&mut self) -> (r: Result<(), SyntaxError>)
        requires
            old(self).wf(),
            old(self).state().depth >= 1,
        ensures
            final(self).toks() == old(self).toks(),
            match r {
                Ok(()) => fn_rest(old(self).toks(), old(self).state()) == Run::Done(final(self).state())
                    && final(self).wf() && final(self).state().pos > old(self).state().pos
                    && final(self).state().depth == old(self).state().depth - 1,
                Err(e) => fn_rest(old(self).toks(), old(self).state()) == Run::Fail(e.kind, e.line as int),
            },
    {
        if self.fn_param()? {
            self.param_list()?;
        }
        if self.consume(TokenCode::RPAR) {
            // The parameters' scope is the body's scope.
            if self.stm_compound(false)? {
                proof {
                    law_close_within(self.sym_table.symbols@, self.sym_table.current_depth);
                }
                self.sym_table.drop_domain();
                return Ok(());
            } else {
                return Err(self.err(SyntaxErrorKind::ExpectedFnBody));
            }
        } else {
            return Err(self.err(SyntaxErrorKind::MissingRparInFnDef));
        }
    }

    /// `fn_def: (type_base | VOID) ID LPAR (fn_param (COMMA fn_param)*)? RPAR
    /// stm_compound`; defines the function, then its parameters and locals
    /// in a scope of their own.
    fn fn_def(&mut self) -> (r: Result<bool, SyntaxError>)
        requires
            old(self).wf(),
        ensures
            ruled(*old(self), r, *final(self), fn_def(old(self).toks(), old(self).state())),
    {
        reveal(fn_def);
        let start_pos = self.pos;
        let mut has_type = false;
        let mut return_type = Type::new();
        if let Some(base_type) = self.type_base()? {
            has_type = true;
            return_type = base_type;
        } else if self.consume(TokenCode::VOID) {
            has_type = true;
            return_type.tb = TypeBase::Void;
        }
        if has_type {
            if let Some(fn_name) = self.consume_id_name() {
                if self.consume(TokenCode::LPAR) {
                    let sym_name = fn_name.clone();
                    let mut fn_sym = Symbol::new(fn_name, SymbolKind::Fn, self.sym_table.current_depth);
                    fn_sym.type_info = return_type;
                    proof {
                        law_define_within(self.sym_table.symbols@, fn_sym, self.sym_table.current_depth);
                    }
                    if let Err(_) = self.sym_table.add_symbol(fn_sym) {
                        return Err(self.err(SyntaxErrorKind::Redefinition(sym_name)));
                    }
                    // The scope of the parameters.
                    self.sym_table.push_domain();
                    self.fn_rest()?;
                    return Ok(true);
                }
            }
        }
        self.pos = start_pos;
        Ok(false)
    }

    /// The `var_def*` of a struct definition.
    fn struct_members(&mut self) -> (r: Result<(), SyntaxError>)
        requires
            old(self).wf(),
        ensures
            ran(*old(self), r, *final(self), struct_members(old(self).toks(), old(self).state())),
    {
        loop
            invariant
                self.wf(),
                self.toks() == old(self).toks(),
                self.state().pos >= old(self).state().pos,
                self.state().depth == old(self).state().depth,
                struct_members(self.toks(), self.state()) == struct_members(old(self).toks(), old(self).state()),
            ensures
                self.wf(),
                self.toks() == old(self).toks(),
                self.state().pos >= old(self).state().pos,
                self.state().depth == old(self).state().depth,
                struct_members(self.toks(), self.state()) == Run::Done(self.state()),
                struct_members(self.toks(), self.state()) == struct_members(old(self).toks(), old(self).state()),
            decreases remaining(self.toks(), self.state().pos),
        {
            // No rule applies past the last token.
            if self.pos >= self.tokens.len() {
                break;
            }
            if !self.var_def()? {
                break;
            }
        }
        Ok(())
    }

    /// `struct_def: STRUCT ID LACC var_def* RACC SEMICOLON`; defines the
    /// struct, and its members in a scope of their own.
    fn struct_def(&mut self) -> (r: Result<bool, SyntaxError>)
        requires
            old(self).wf(),
        ensures
            ruled(*old(self), r, *final(self), struct_def(old(self).toks(), old(self).state())),
    {
        reveal(struct_def);
        let start_pos = self.pos;
        if self.consume(TokenCode::STRUCT) {
            if let Some(struct_name) = self.consume_id_name() {
                if self.consume(TokenCode::LACC) {
                    let sym_name = struct_name.clone();
                    let mut struct_sym = Symbol::new(struct_name, SymbolKind::Struct, self.sym_table.current_depth);
                    struct_sym.type_info.tb = TypeBase::Struct;
                    proof {
                        law_define_within(self.sym_table.symbols@, struct_sym, self.sym_table.current_depth);
                    }
                    if let Err(_) = self.sym_table.add_symbol(struct_sym) {
                        return Err(self.err(SyntaxErrorKind::Redefinition(sym_name)));
                    }
                    // The scope of the members.
                    self.sym_table.push_domain();
                    self.struct_members()?;
                    if self.consume(TokenCode::RACC) {
                        proof {
                            law_close_within(self.sym_table.symbols@, self.sym_table.current_depth);
                        }
                        self.sym_table.drop_domain();
                        if self.consume(TokenCode::SEMICOLON) {
                            return Ok(true);
                        } else {
                            return Err(self.err(SyntaxErrorKind::MissingSemicolonAfterStruct));
                        }
                    } else {
                        return Err(self.err(SyntaxErrorKind::MissingRaccInStruct));
                    }
                }
            } else {
                return Err(self.err(SyntaxErrorKind::MissingIdAfterStruct));
            }
        }
        self.pos = start_pos;
        Ok(false)
    }

    /// Checks the whole unit: `(struct_def | fn_def | var_def)* END`. The
    /// contract states the answer exactly by `unit`. On success every scope
    /// that the unit opened is closed again: the depth is as it was, and no
    /// symbol is deeper than it.
    pub fn parse(&mut self) -> (r: Result<(), SyntaxError>)
        requires
            old(self).wf(),
        ensures
            final(self).toks() == old(self).toks(),
            r is Ok ==> final(self).state().depth == old(self).state().depth && depths_within(
                final(self).state().syms,
                final(self).state().depth,
            ),
            match r {
                Ok(()) => unit(old(self).toks(), old(self).state()) == Ok::<PState, (SyntaxErrorKind, int)>(
                    final(self).state(),
                ),
                Err(e) => unit(old(self).toks(), old(self).state()) == Err::<PState, (SyntaxErrorKind, int)>(
                    (e.kind, e.line as int),
                ),
            },
    {
        loop
            invariant
                self.wf(),
                self.toks() == old(self).toks(),
                self.state().depth == old(self).state().depth,
                unit_items(self.toks(), self.state()) == unit_items(old(self).toks(), old(self).state()),
            ensures
                self.wf(),
                self.toks() == old(self).toks(),
                self.state().depth == old(self).state().depth,
                unit_items(self.toks(), self.state()) == Run::Done(self.state()),
                unit_items(self.toks(), self.state()) == unit_items(old(self).toks(), old(self).state()),
            decreases remaining(self.toks(), self.state().pos),
        {
            // No rule applies past the last token.
            if self.pos >= self.tokens.len() {
                break;
            }
            if self.struct_def()? {
                continue;
            }
            if self.fn_def()? {
                continue;
            }
            if self.var_def()? {
                continue;
            }
            break;
        }
        if !self.consume(TokenCode::END) {
            return Err(self.err(SyntaxErrorKind::ExpectedTopLevel));
        }
        Ok(())
    }
}

} // verus!
