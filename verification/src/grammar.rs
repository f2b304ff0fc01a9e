//! The syntax of AtomC as the recursive-descent checker reads it, stated
//! over the sequence of tokens and the state of the symbol table.
//!
//! Each rule is read at a state `st` (a position and the symbol table) and
//! ends in one of three ways: it does not apply (`No`: the checker goes back
//! to `st` and tries another rule), it applies (`Yes`: it used the tokens
//! from `st.pos` on, at least one, and left the symbol table as given), or
//! the text is refused (`Fail`: an error with the line of the token at
//! which the checker stopped, or line 0 past the end).
use vstd::prelude::*;
use crate::symbol::{MemClass, Symbol, SymbolKind, Type, TypeBase};
use crate::symtable::{at_depth, defined_at, joined, lookup, outside_scope};
use crate::token::{SpecTokenCode, Token, TokenCode};

verus! {

/// Why the syntax checker refused the tokens.
#[derive(Debug, Clone, PartialEq)]
pub enum SyntaxErrorKind {
    ExpectedTopLevel,
    MissingSemicolonAfterStruct,
    MissingRaccInStruct,
    MissingIdAfterStruct,
    MissingVarNameAfterComma,
    MissingSemicolonAfterVarDecl,
    UndefinedStruct(String),
    Redefinition(String),
    MissingRbracketInArrayDecl,
    ExpectedParamAfterComma,
    ExpectedFnBody,
    MissingRparInFnDef,
    MissingIdInParam,
    MissingLparAfterIf,
    InvalidIfCondition,
    MissingRparAfterIfCondition,
    MissingIfBranch,
    MissingElseBranch,
    MissingLparAfterWhile,
    InvalidWhileCondition,
    MissingRparAfterWhileCondition,
    MissingWhileBody,
    MissingLparAfterFor,
    MissingFirstSemicolonInFor,
    MissingSecondSemicolonInFor,
    MissingRparInFor,
    MissingForBody,
    MissingSemicolonAfterBreak,
    MissingSemicolonAfterReturn,
    MissingSemicolonAfterExpr,
    MissingRaccInCompound,
    MissingExprAfterAssign,
    MissingExprAfterOr,
    MissingExprAfterAnd,
    MissingExprAfterEquality,
    MissingExprAfterRelational,
    MissingExprAfterAdditive,
    MissingExprAfterMultiplicative,
    MissingExprAfterUnary,
    MissingExprInIndex,
    MissingRbracketAfterIndex,
    MissingIdAfterDot,
    ExpectedExprAfterCommaInCall,
    MissingRparAfterCallArgs,
    MissingRparInGroup,
}

/// The text that reports a refusal of kind `k`.
pub open spec fn syntax_message(k: SyntaxErrorKind) -> Seq<char> {
    match k {
        SyntaxErrorKind::ExpectedTopLevel => "Expected EOF, struct_def, fn_def or var_def"@,
        SyntaxErrorKind::MissingSemicolonAfterStruct => "Missing ';' after struct definition"@,
        SyntaxErrorKind::MissingRaccInStruct => "Missing '}' in struct definition"@,
        SyntaxErrorKind::MissingIdAfterStruct => "Missing ID after 'struct'"@,
        SyntaxErrorKind::MissingVarNameAfterComma => "Missing variable name after ','"@,
        SyntaxErrorKind::MissingSemicolonAfterVarDecl => "Missing ';' at the end of variable declaration"@,
        SyntaxErrorKind::MissingRbracketInArrayDecl => "Missing ']' in array declaration"@,
        SyntaxErrorKind::ExpectedParamAfterComma => "Expected function parameter after ','"@,
        SyntaxErrorKind::ExpectedFnBody => "Expected compound statement '{...}' for function body"@,
        SyntaxErrorKind::MissingRparInFnDef => "Missing ')' in function definition"@,
        SyntaxErrorKind::MissingIdInParam => "Missing ID in function parameter"@,
        SyntaxErrorKind::MissingLparAfterIf => "Missing '(' after 'if'"@,
        SyntaxErrorKind::InvalidIfCondition => "Invalid expression in 'if' condition"@,
        SyntaxErrorKind::MissingRparAfterIfCondition => "Missing ')' after 'if' condition"@,
        SyntaxErrorKind::MissingIfBranch => "Missing statement for 'if' branch"@,
        SyntaxErrorKind::MissingElseBranch => "Missing statement for 'else' branch"@,
        SyntaxErrorKind::MissingLparAfterWhile => "Missing '(' after 'while'"@,
        SyntaxErrorKind::InvalidWhileCondition => "Invalid expression in 'while' condition"@,
        SyntaxErrorKind::MissingRparAfterWhileCondition => "Missing ')' after 'while' condition"@,
        SyntaxErrorKind::MissingWhileBody => "Missing statement for 'while' loop"@,
        SyntaxErrorKind::MissingLparAfterFor => "Missing '(' after 'for'"@,
        SyntaxErrorKind::MissingFirstSemicolonInFor => "Missing first ';' in 'for' loop"@,
        SyntaxErrorKind::MissingSecondSemicolonInFor => "Missing second ';' in 'for' loop"@,
        SyntaxErrorKind::MissingRparInFor => "Missing ')' in 'for' loop"@,
        SyntaxErrorKind::MissingForBody => "Missing statement for 'for' loop body"@,
        SyntaxErrorKind::MissingSemicolonAfterBreak => "Missing ';' after 'break'"@,
        SyntaxErrorKind::MissingSemicolonAfterReturn => "Missing ';' after 'return'"@,
        SyntaxErrorKind::MissingSemicolonAfterExpr => "Missing ';' after expression statement"@,
        SyntaxErrorKind::MissingRaccInCompound => "Missing '}' to close compound statement"@,
        SyntaxErrorKind::MissingExprAfterAssign => "Missing expression after '='"@,
        SyntaxErrorKind::MissingExprAfterOr => "Expected expression after '||'"@,
        SyntaxErrorKind::MissingExprAfterAnd => "Expected expression after '&&'"@,
        SyntaxErrorKind::MissingExprAfterEquality => "Missing expression after '==' or '!='"@,
        SyntaxErrorKind::MissingExprAfterRelational => "Missing expression after relational operator"@,
        SyntaxErrorKind::MissingExprAfterAdditive => "Expected expression after '+' or '-'"@,
        SyntaxErrorKind::MissingExprAfterMultiplicative => "Expected expression after '*' or '/'"@,
        SyntaxErrorKind::MissingExprAfterUnary => "Missing expression after '-' or '!'"@,
        SyntaxErrorKind::MissingExprInIndex => "Missing expression inside '[...]'"@,
        SyntaxErrorKind::MissingRbracketAfterIndex => "Missing ']' after array index"@,
        SyntaxErrorKind::MissingIdAfterDot => "Missing ID after '.'"@,
        SyntaxErrorKind::ExpectedExprAfterCommaInCall => "Expected expression after ',' in function call"@,
        SyntaxErrorKind::MissingRparAfterCallArgs => "Missing ')' after function call arguments"@,
        SyntaxErrorKind::MissingRparInGroup => "Missing ')' to close grouped expression"@,
        SyntaxErrorKind::UndefinedStruct(name) => "Undefined struct: "@ + name@,
        SyntaxErrorKind::Redefinition(name) => "Symbol redefinition: "@ + name@,
    }
}

impl SyntaxErrorKind {
    /// The text that reports this refusal.
    pub fn message(&self) -> (m: String)
        ensures
            m@ == syntax_message(*self),
    {
        match self {
            SyntaxErrorKind::ExpectedTopLevel => "Expected EOF, struct_def, fn_def or var_def".to_owned(),
            SyntaxErrorKind::MissingSemicolonAfterStruct => "Missing ';' after struct definition".to_owned(),
            SyntaxErrorKind::MissingRaccInStruct => "Missing '}' in struct definition".to_owned(),
            SyntaxErrorKind::MissingIdAfterStruct => "Missing ID after 'struct'".to_owned(),
            SyntaxErrorKind::MissingVarNameAfterComma => "Missing variable name after ','".to_owned(),
            SyntaxErrorKind::MissingSemicolonAfterVarDecl => "Missing ';' at the end of variable declaration".to_owned(),
            SyntaxErrorKind::MissingRbracketInArrayDecl => "Missing ']' in array declaration".to_owned(),
            SyntaxErrorKind::ExpectedParamAfterComma => "Expected function parameter after ','".to_owned(),
            SyntaxErrorKind::ExpectedFnBody => "Expected compound statement '{...}' for function body".to_owned(),
            SyntaxErrorKind::MissingRparInFnDef => "Missing ')' in function definition".to_owned(),
            SyntaxErrorKind::MissingIdInParam => "Missing ID in function parameter".to_owned(),
            SyntaxErrorKind::MissingLparAfterIf => "Missing '(' after 'if'".to_owned(),
            SyntaxErrorKind::InvalidIfCondition => "Invalid expression in 'if' condition".to_owned(),
            SyntaxErrorKind::MissingRparAfterIfCondition => "Missing ')' after 'if' condition".to_owned(),
            SyntaxErrorKind::MissingIfBranch => "Missing statement for 'if' branch".to_owned(),
            SyntaxErrorKind::MissingElseBranch => "Missing statement for 'else' branch".to_owned(),
            SyntaxErrorKind::MissingLparAfterWhile => "Missing '(' after 'while'".to_owned(),
            SyntaxErrorKind::InvalidWhileCondition => "Invalid expression in 'while' condition".to_owned(),
            SyntaxErrorKind::MissingRparAfterWhileCondition => "Missing ')' after 'while' condition".to_owned(),
            SyntaxErrorKind::MissingWhileBody => "Missing statement for 'while' loop".to_owned(),
            SyntaxErrorKind::MissingLparAfterFor => "Missing '(' after 'for'".to_owned(),
            SyntaxErrorKind::MissingFirstSemicolonInFor => "Missing first ';' in 'for' loop".to_owned(),
            SyntaxErrorKind::MissingSecondSemicolonInFor => "Missing second ';' in 'for' loop".to_owned(),
            SyntaxErrorKind::MissingRparInFor => "Missing ')' in 'for' loop".to_owned(),
            SyntaxErrorKind::MissingForBody => "Missing statement for 'for' loop body".to_owned(),
            SyntaxErrorKind::MissingSemicolonAfterBreak => "Missing ';' after 'break'".to_owned(),
            SyntaxErrorKind::MissingSemicolonAfterReturn => "Missing ';' after 'return'".to_owned(),
            SyntaxErrorKind::MissingSemicolonAfterExpr => "Missing ';' after expression statement".to_owned(),
            SyntaxErrorKind::MissingRaccInCompound => "Missing '}' to close compound statement".to_owned(),
            SyntaxErrorKind::MissingExprAfterAssign => "Missing expression after '='".to_owned(),
            SyntaxErrorKind::MissingExprAfterOr => "Expected expression after '||'".to_owned(),
            SyntaxErrorKind::MissingExprAfterAnd => "Expected expression after '&&'".to_owned(),
            SyntaxErrorKind::MissingExprAfterEquality => "Missing expression after '==' or '!='".to_owned(),
            SyntaxErrorKind::MissingExprAfterRelational => "Missing expression after relational operator".to_owned(),
            SyntaxErrorKind::MissingExprAfterAdditive => "Expected expression after '+' or '-'".to_owned(),
            SyntaxErrorKind::MissingExprAfterMultiplicative => "Expected expression after '*' or '/'".to_owned(),
            SyntaxErrorKind::MissingExprAfterUnary => "Missing expression after '-' or '!'".to_owned(),
            SyntaxErrorKind::MissingExprInIndex => "Missing expression inside '[...]'".to_owned(),
            SyntaxErrorKind::MissingRbracketAfterIndex => "Missing ']' after array index".to_owned(),
            SyntaxErrorKind::MissingIdAfterDot => "Missing ID after '.'".to_owned(),
            SyntaxErrorKind::ExpectedExprAfterCommaInCall => "Expected expression after ',' in function call".to_owned(),
            SyntaxErrorKind::MissingRparAfterCallArgs => "Missing ')' after function call arguments".to_owned(),
            SyntaxErrorKind::MissingRparInGroup => "Missing ')' to close grouped expression".to_owned(),
            SyntaxErrorKind::UndefinedStruct(name) => joined("Undefined struct: ", name),
            SyntaxErrorKind::Redefinition(name) => joined("Symbol redefinition: ", name),
        }
    }
}

/// Where the checker stands: the next token and the symbol table.
pub struct PState {
    pub pos: int,
    pub syms: Seq<Symbol>,
    pub depth: int,
}

/// How a rule ends. `Yes(extra, syms, depth)`: the rule used `extra + 1`
/// tokens and left the table `syms` at depth `depth`.
pub enum Step {
    No,
    Yes(nat, Seq<Symbol>, int),
    Fail(SyntaxErrorKind, int),
}

/// How the type rule ends; `Yes` also gives the type read.
pub enum TypeStep {
    No,
    Yes(Type, nat),
    Fail(SyntaxErrorKind, int),
}

/// How a repetition ends: where it stopped, or the refusal.
pub enum Run {
    Done(PState),
    Fail(SyntaxErrorKind, int),
}

/// The tokens still to read from `pos` on.
pub open spec fn remaining(toks: Seq<Token>, pos: int) -> nat {
    if pos < toks.len() {
        (toks.len() - pos) as nat
    } else {
        0
    }
}

/// The line of the token at `pos`, or 0 past the end.
pub open spec fn line_at(toks: Seq<Token>, pos: int) -> int {
    if 0 <= pos < toks.len() {
        toks[pos].line as int
    } else {
        0
    }
}

/// Whether the token at `st.pos` is `c`.
pub open spec fn is_at(toks: Seq<Token>, st: PState, c: SpecTokenCode) -> bool {
    0 <= st.pos < toks.len() && toks[st.pos].code@ == c
}

/// The name of the identifier at `st.pos`, if the token there is one.
pub open spec fn id_at(toks: Seq<Token>, st: PState) -> Option<String> {
    if 0 <= st.pos < toks.len() {
        match toks[st.pos].code {
            TokenCode::ID(name) => Some(name),
            _ => None,
        }
    } else {
        None
    }
}

/// Whether the token at `st.pos` is a constant.
pub open spec fn constant_at(toks: Seq<Token>, st: PState) -> bool {
    0 <= st.pos < toks.len() && match toks[st.pos].code {
        TokenCode::CtInt(_) | TokenCode::CtReal(_) | TokenCode::CtChar(_) | TokenCode::CtString(_) => true,
        _ => false,
    }
}

/// The state one token further.
pub open spec fn step1(st: PState) -> PState {
    PState { pos: st.pos + 1, syms: st.syms, depth: st.depth }
}

/// The state after a rule at `st` ended in `Yes(extra, syms, depth)`.
pub open spec fn after(st: PState, extra: nat, syms: Seq<Symbol>, depth: int) -> PState {
    PState { pos: st.pos + extra + 1, syms, depth }
}

/// The state after the type rule at `st` used `extra + 1` tokens.
pub open spec fn after_type(st: PState, extra: nat) -> PState {
    PState { pos: st.pos + extra + 1, syms: st.syms, depth: st.depth }
}

/// A rule at `st` that applies and stops at `end`.
pub open spec fn yes_to(st: PState, end: PState) -> Step {
    Step::Yes((end.pos - st.pos - 1) as nat, end.syms, end.depth)
}

/// A refusal at `st`.
pub open spec fn fail_at(toks: Seq<Token>, st: PState, k: SyntaxErrorKind) -> Step {
    Step::Fail(k, line_at(toks, st.pos))
}

pub open spec fn run_fail_at(toks: Seq<Token>, st: PState, k: SyntaxErrorKind) -> Run {
    Run::Fail(k, line_at(toks, st.pos))
}

/// A new scope opens.
pub open spec fn open_scope(st: PState) -> PState {
    PState { pos: st.pos, syms: st.syms, depth: st.depth + 1 }
}

/// The current scope closes, and its symbols go.
pub open spec fn close_scope(st: PState) -> PState {
    PState { pos: st.pos, syms: outside_scope(st.syms, st.depth as i32), depth: st.depth - 1 }
}

/// The symbol that a definition adds.
pub open spec fn new_symbol(name: String, kind: SymbolKind, t: Type, depth: int) -> Symbol {
    Symbol {
        name,
        kind,
        mem: MemClass::NotApplicable,
        type_info: t,
        depth: depth as i32,
        args: None,
        locals: None,
        members: None,
    }
}

/// Defines `sym` in the current scope, then goes on with `k`; a second
/// definition of its name at the same depth is refused.
pub open spec fn define(toks: Seq<Token>, st: PState, sym: Symbol) -> Result<PState, (SyntaxErrorKind, int)> {
    if defined_at(st.syms, sym.name@, st.depth as i32) {
        Err((SyntaxErrorKind::Redefinition(sym.name), line_at(toks, st.pos)))
    } else {
        Ok(PState { pos: st.pos, syms: st.syms.push(at_depth(sym, st.depth as i32)), depth: st.depth })
    }
}

/// A type of its base alone.
pub open spec fn base_type(tb: TypeBase) -> Type {
    Type { tb, struct_name: None, elements: -1i32 }
}

/// `t` made an array of `elements` elements (`0`: no size known).
pub open spec fn as_array(t: Type, elements: i32) -> Type {
    Type { tb: t.tb, struct_name: t.struct_name, elements }
}

/// The size that the array declarator whose `[` stands at `st` gives: the
/// value of an integer constant that stands alone between the brackets, when
/// it is positive and fits in an `i32`; otherwise `0`, an array whose size is
/// not a constant or is not given.
pub open spec fn array_size(toks: Seq<Token>, st: PState) -> i32 {
    let k = st.pos + 1;
    if 0 <= k && k + 1 < toks.len() && toks[k + 1].code@ == SpecTokenCode::RBRACKET {
        match toks[k].code {
            TokenCode::CtInt(n) => if 0 < n && n <= i32::MAX { n as i32 } else { 0i32 },
            _ => 0i32,
        }
    } else {
        0i32
    }
}

/// Whether a struct named `name` is among `syms`.
pub open spec fn names_struct(syms: Seq<Symbol>, name: Seq<char>) -> bool {
    exists|i: int|
        0 <= i < syms.len() && #[trigger] syms[i].name@ == name && syms[i].kind == SymbolKind::Struct
}

/// `type_base: INT | DOUBLE | CHAR | STRUCT ID`; the struct must be known:
/// a struct of that name must be in scope, whatever else its name may name.
pub open spec fn type_base(toks: Seq<Token>, st: PState) -> TypeStep {
    if is_at(toks, st, SpecTokenCode::INT) {
        TypeStep::Yes(base_type(TypeBase::Int), 0)
    } else if is_at(toks, st, SpecTokenCode::DOUBLE) {
        TypeStep::Yes(base_type(TypeBase::Double), 0)
    } else if is_at(toks, st, SpecTokenCode::CHAR) {
        TypeStep::Yes(base_type(TypeBase::Char), 0)
    } else if is_at(toks, st, SpecTokenCode::STRUCT) {
        let s1 = step1(st);
        match id_at(toks, s1) {
            Some(name) => {
                if names_struct(st.syms, name@) {
                    TypeStep::Yes(
                        Type { tb: TypeBase::Struct, struct_name: Some(name), elements: -1i32 },
                        1,
                    )
                } else {
                    TypeStep::Fail(SyntaxErrorKind::UndefinedStruct(name), line_at(toks, s1.pos + 1))
                }
            },
            None => TypeStep::Fail(SyntaxErrorKind::MissingIdAfterStruct, line_at(toks, s1.pos)),
        }
    } else {
        TypeStep::No
    }
}

/// The levels of binary operators, loosest first.
#[derive(Debug, Clone, Copy, PartialEq, Eq, Structural)]
pub enum BinLevel {
    Or,
    And,
    Equality,
    Relational,
    Additive,
    Multiplicative,
}

pub open spec fn level_rank(l: BinLevel) -> int {
    match l {
        BinLevel::Or => 36,
        BinLevel::And => 34,
        BinLevel::Equality => 32,
        BinLevel::Relational => 30,
        BinLevel::Additive => 28,
        BinLevel::Multiplicative => 26,
    }
}

/// Whether an operator of level `l` stands at `st`.
pub open spec fn op_at(toks: Seq<Token>, st: PState, l: BinLevel) -> bool {
    match l {
        BinLevel::Or => is_at(toks, st, SpecTokenCode::OR),
        BinLevel::And => is_at(toks, st, SpecTokenCode::AND),
        BinLevel::Equality => is_at(toks, st, SpecTokenCode::EQUAL) || is_at(toks, st, SpecTokenCode::NOTEQ),
        BinLevel::Relational => is_at(toks, st, SpecTokenCode::LESS) || is_at(toks, st, SpecTokenCode::LESSEQ)
            || is_at(toks, st, SpecTokenCode::GREATER) || is_at(toks, st, SpecTokenCode::GREATEREQ),
        BinLevel::Additive => is_at(toks, st, SpecTokenCode::ADD) || is_at(toks, st, SpecTokenCode::SUB),
        BinLevel::Multiplicative => is_at(toks, st, SpecTokenCode::MUL) || is_at(toks, st, SpecTokenCode::DIV),
    }
}

/// The refusal when an operator of level `l` has no right operand.
pub open spec fn missing_operand(l: BinLevel) -> SyntaxErrorKind {
    match l {
        BinLevel::Or => SyntaxErrorKind::MissingExprAfterOr,
        BinLevel::And => SyntaxErrorKind::MissingExprAfterAnd,
        BinLevel::Equality => SyntaxErrorKind::MissingExprAfterEquality,
        BinLevel::Relational => SyntaxErrorKind::MissingExprAfterRelational,
        BinLevel::Additive => SyntaxErrorKind::MissingExprAfterAdditive,
        BinLevel::Multiplicative => SyntaxErrorKind::MissingExprAfterMultiplicative,
    }
}

/// `expr: expr_assign`
#[verifier::opaque]
pub open spec fn expr(toks: Seq<Token>, st: PState) -> Step
    decreases remaining(toks, st.pos), 40int,
{
    expr_assign(toks, st)
}

/// `expr_assign: _u ASSIGN expr_assign | expr_or`
pub open spec fn expr_assign(toks: Seq<Token>, st: PState) -> Step
    decreases remaining(toks, st.pos), 38int,
{
    match unary(toks, st) {
        Step::Fail(k, l) => Step::Fail(k, l),
        Step::Yes(e, sy, d) if is_at(toks, after(st, e, sy, d), SpecTokenCode::ASSIGN) => {
            let s2 = step1(after(st, e, sy, d));
            match expr_assign(toks, s2) {
                Step::Yes(e2, sy2, d2) => yes_to(st, after(s2, e2, sy2, d2)),
                Step::No => fail_at(toks, s2, SyntaxErrorKind::MissingExprAfterAssign),
                Step::Fail(k, l) => Step::Fail(k, l),
            }
        },
        _ => binary(toks, st, BinLevel::Or),
    }
}

/// `expr_or: expr_and (OR expr_and)*`, and likewise for each level down to
/// `expr_mul: expr_cast ((MUL | DIV) expr_cast)*`.
pub open spec fn binary(toks: Seq<Token>, st: PState, l: BinLevel) -> Step
    decreases remaining(toks, st.pos), level_rank(l),
{
    let first = match l {
        BinLevel::Or => binary(toks, st, BinLevel::And),
        BinLevel::And => binary(toks, st, BinLevel::Equality),
        BinLevel::Equality => binary(toks, st, BinLevel::Relational),
        BinLevel::Relational => binary(toks, st, BinLevel::Additive),
        BinLevel::Additive => binary(toks, st, BinLevel::Multiplicative),
        BinLevel::Multiplicative => expr_cast(toks, st),
    };
    match first {
        Step::Fail(k, lin) => Step::Fail(k, lin),
        Step::No => Step::No,
        Step::Yes(e, sy, d) => match binary_tail(toks, after(st, e, sy, d), l) {
            Run::Done(end) => yes_to(st, end),
            Run::Fail(k, lin) => Step::Fail(k, lin),
        },
    }
}

/// The repeated `op operand` part of a level.
pub open spec fn binary_tail(toks: Seq<Token>, st: PState, l: BinLevel) -> Run
    decreases remaining(toks, st.pos), 0int,
{
    if op_at(toks, st, l) {
        let s1 = step1(st);
        let next = match l {
            BinLevel::Or => binary(toks, s1, BinLevel::And),
            BinLevel::And => binary(toks, s1, BinLevel::Equality),
            BinLevel::Equality => binary(toks, s1, BinLevel::Relational),
            BinLevel::Relational => binary(toks, s1, BinLevel::Additive),
            BinLevel::Additive => binary(toks, s1, BinLevel::Multiplicative),
            BinLevel::Multiplicative => expr_cast(toks, s1),
        };
        match next {
            Step::Yes(e, sy, d) => binary_tail(toks, after(s1, e, sy, d), l),
            Step::No => run_fail_at(toks, s1, missing_operand(l)),
            Step::Fail(k, lin) => Run::Fail(k, lin),
        }
    } else {
        Run::Done(st)
    }
}

/// `expr_cast: LPAR type_base array_decl? RPAR expr_cast | _u`
pub open spec fn expr_cast(toks: Seq<Token>, st: PState) -> Step
    decreases remaining(toks, st.pos), 24int,
{
    if is_at(toks, st, SpecTokenCode::LPAR) {
        let s1 = step1(st);
        match type_base(toks, s1) {
            TypeStep::Fail(k, l) => Step::Fail(k, l),
            TypeStep::No => unary(toks, st),
            TypeStep::Yes(_, e) => {
                let s2 = after_type(s1, e);
                match array_decl(toks, s2) {
                    Step::Fail(k, l) => Step::Fail(k, l),
                    r => {
                        let s3 = match r {
                            Step::Yes(e3, sy3, d3) => after(s2, e3, sy3, d3),
                            _ => s2,
                        };
                        if is_at(toks, s3, SpecTokenCode::RPAR) {
                            let s4 = step1(s3);
                            match expr_cast(toks, s4) {
                                Step::Yes(e4, sy4, d4) => yes_to(st, after(s4, e4, sy4, d4)),
                                Step::Fail(k, l) => Step::Fail(k, l),
                                Step::No => unary(toks, st),
                            }
                        } else {
                            unary(toks, st)
                        }
                    },
                }
            },
        }
    } else {
        unary(toks, st)
    }
}

/// `_u: (SUB | NOT) _u | expr_postfix`
pub open spec fn unary(toks: Seq<Token>, st: PState) -> Step
    decreases remaining(toks, st.pos), 22int,
{
    if is_at(toks, st, SpecTokenCode::SUB) || is_at(toks, st, SpecTokenCode::NOT) {
        let s1 = step1(st);
        match unary(toks, s1) {
            Step::Yes(e, sy, d) => yes_to(st, after(s1, e, sy, d)),
            Step::No => fail_at(toks, s1, SyntaxErrorKind::MissingExprAfterUnary),
            Step::Fail(k, l) => Step::Fail(k, l),
        }
    } else {
        expr_postfix(toks, st)
    }
}

/// `expr_postfix: expr_primary (LBRACKET expr RBRACKET | DOT ID)*`
pub open spec fn expr_postfix(toks: Seq<Token>, st: PState) -> Step
    decreases remaining(toks, st.pos), 20int,
{
    match expr_primary(toks, st) {
        Step::Fail(k, l) => Step::Fail(k, l),
        Step::No => Step::No,
        Step::Yes(e, sy, d) => match postfix_tail(toks, after(st, e, sy, d)) {
            Run::Done(end) => yes_to(st, end),
            Run::Fail(k, l) => Step::Fail(k, l),
        },
    }
}

/// The repeated indexing and member access of a postfix expression.
pub open spec fn postfix_tail(toks: Seq<Token>, st: PState) -> Run
    decreases remaining(toks, st.pos), 0int,
{
    if is_at(toks, st, SpecTokenCode::LBRACKET) {
        let s1 = step1(st);
        match expr(toks, s1) {
            Step::Yes(e, sy, d) => {
                let s2 = after(s1, e, sy, d);
                if is_at(toks, s2, SpecTokenCode::RBRACKET) {
                    postfix_tail(toks, step1(s2))
                } else {
                    run_fail_at(toks, s2, SyntaxErrorKind::MissingRbracketAfterIndex)
                }
            },
            Step::No => run_fail_at(toks, s1, SyntaxErrorKind::MissingExprInIndex),
            Step::Fail(k, l) => Run::Fail(k, l),
        }
    } else if is_at(toks, st, SpecTokenCode::DOT) {
        let s1 = step1(st);
        if id_at(toks, s1) is Some {
            postfix_tail(toks, step1(s1))
        } else {
            run_fail_at(toks, s1, SyntaxErrorKind::MissingIdAfterDot)
        }
    } else {
        Run::Done(st)
    }
}

/// `expr_primary: ID (LPAR (expr (COMMA expr)*)? RPAR)? | CT_INT | CT_REAL
/// | CT_CHAR | CT_STRING | LPAR expr RPAR`
pub open spec fn expr_primary(toks: Seq<Token>, st: PState) -> Step
    decreases remaining(toks, st.pos), 18int,
{
    if id_at(toks, st) is Some {
        match call_suffix(toks, step1(st)) {
            Run::Done(end) => yes_to(st, end),
            Run::Fail(k, l) => Step::Fail(k, l),
        }
    } else if constant_at(toks, st) {
        yes_to(st, step1(st))
    } else if is_at(toks, st, SpecTokenCode::LPAR) {
        let s1 = step1(st);
        match expr(toks, s1) {
            Step::Fail(k, l) => Step::Fail(k, l),
            Step::No => Step::No,
            Step::Yes(e, sy, d) => {
                let s2 = after(s1, e, sy, d);
                if is_at(toks, s2, SpecTokenCode::RPAR) {
                    yes_to(st, step1(s2))
                } else {
                    fail_at(toks, s2, SyntaxErrorKind::MissingRparInGroup)
                }
            },
        }
    } else {
        Step::No
    }
}

/// The optional `LPAR (expr (COMMA expr)*)? RPAR` of a call, after the
/// name that is called.
pub open spec fn call_suffix(toks: Seq<Token>, s1: PState) -> Run
    decreases remaining(toks, s1.pos), 17int,
{
    if is_at(toks, s1, SpecTokenCode::LPAR) {
        let s2 = step1(s1);
        let args = match expr(toks, s2) {
            Step::Fail(k, l) => Run::Fail(k, l),
            Step::No => Run::Done(s2),
            Step::Yes(e, sy, d) => args_tail(toks, after(s2, e, sy, d)),
        };
        match args {
            Run::Fail(k, l) => Run::Fail(k, l),
            Run::Done(s3) => {
                if is_at(toks, s3, SpecTokenCode::RPAR) {
                    Run::Done(step1(s3))
                } else {
                    run_fail_at(toks, s3, SyntaxErrorKind::MissingRparAfterCallArgs)
                }
            },
        }
    } else {
        Run::Done(s1)
    }
}

/// The repeated `COMMA expr` of the arguments of a call.
pub open spec fn args_tail(toks: Seq<Token>, st: PState) -> Run
    decreases remaining(toks, st.pos), 0int,
{
    if is_at(toks, st, SpecTokenCode::COMMA) {
        let s1 = step1(st);
        match expr(toks, s1) {
            Step::Yes(e, sy, d) => args_tail(toks, after(s1, e, sy, d)),
            Step::No => run_fail_at(toks, s1, SyntaxErrorKind::ExpectedExprAfterCommaInCall),
            Step::Fail(k, l) => Run::Fail(k, l),
        }
    } else {
        Run::Done(st)
    }
}

/// `array_decl: LBRACKET expr? RBRACKET`
pub open spec fn array_decl(toks: Seq<Token>, st: PState) -> Step
    decreases remaining(toks, st.pos), 0int,
{
    if is_at(toks, st, SpecTokenCode::LBRACKET) {
        let s1 = step1(st);
        let s2 = match expr(toks, s1) {
            Step::Yes(e, sy, d) => Run::Done(after(s1, e, sy, d)),
            Step::No => Run::Done(s1),
            Step::Fail(k, l) => Run::Fail(k, l),
        };
        match s2 {
            Run::Fail(k, l) => Step::Fail(k, l),
            Run::Done(s2) => {
                if is_at(toks, s2, SpecTokenCode::RBRACKET) {
                    yes_to(st, step1(s2))
                } else {
                    fail_at(toks, s2, SyntaxErrorKind::MissingRbracketInArrayDecl)
                }
            },
        }
    } else {
        Step::No
    }
}

/// An optional expression at `st`: where it ends, or `st` if there is none.
pub open spec fn opt_expr(toks: Seq<Token>, st: PState) -> Run {
    match expr(toks, st) {
        Step::Yes(e, sy, d) => Run::Done(after(st, e, sy, d)),
        Step::No => Run::Done(st),
        Step::Fail(k, l) => Run::Fail(k, l),
    }
}

/// Requires the token `c` at `st`, else refuses with `k`.
pub open spec fn expect(toks: Seq<Token>, st: PState, c: SpecTokenCode, k: SyntaxErrorKind) -> Run {
    if is_at(toks, st, c) {
        Run::Done(step1(st))
    } else {
        run_fail_at(toks, st, k)
    }
}

/// An expression that must follow at `st`; refuses with `k` if none does.
pub open spec fn required_expr(toks: Seq<Token>, st: PState, k: SyntaxErrorKind) -> Run {
    match expr(toks, st) {
        Step::Yes(e, sy, d) => Run::Done(after(st, e, sy, d)),
        Step::No => run_fail_at(toks, st, k),
        Step::Fail(kk, l) => Run::Fail(kk, l),
    }
}

/// A rule that applies from `st` to the end of a run.
pub open spec fn finish(st: PState, r: Run) -> Step {
    match r {
        Run::Done(end) => yes_to(st, end),
        Run::Fail(k, l) => Step::Fail(k, l),
    }
}

/// `IF LPAR expr RPAR stm (ELSE stm)?`, from the token after `IF` on.
pub open spec fn if_rest(toks: Seq<Token>, s1: PState) -> Run
    decreases remaining(toks, s1.pos), 4int,
{
    match expect(toks, s1, SpecTokenCode::LPAR, SyntaxErrorKind::MissingLparAfterIf) {
        Run::Fail(k, l) => Run::Fail(k, l),
        Run::Done(s2) => match required_expr(toks, s2, SyntaxErrorKind::InvalidIfCondition) {
            Run::Fail(k, l) => Run::Fail(k, l),
            Run::Done(s3) => match expect(
                toks,
                s3,
                SpecTokenCode::RPAR,
                SyntaxErrorKind::MissingRparAfterIfCondition,
            ) {
                Run::Fail(k, l) => Run::Fail(k, l),
                Run::Done(s4) => match stm(toks, s4) {
                    Step::No => run_fail_at(toks, s4, SyntaxErrorKind::MissingIfBranch),
                    Step::Fail(k, l) => Run::Fail(k, l),
                    Step::Yes(e, sy, d) => {
                        let s5 = after(s4, e, sy, d);
                        if is_at(toks, s5, SpecTokenCode::ELSE) {
                            match stm(toks, step1(s5)) {
                                Step::Yes(e2, sy2, d2) => Run::Done(after(step1(s5), e2, sy2, d2)),
                                Step::No => run_fail_at(toks, step1(s5), SyntaxErrorKind::MissingElseBranch),
                                Step::Fail(k, l) => Run::Fail(k, l),
                            }
                        } else {
                            Run::Done(s5)
                        }
                    },
                },
            },
        },
    }
}

/// `WHILE LPAR expr RPAR stm`, from the token after `WHILE` on.
pub open spec fn while_rest(toks: Seq<Token>, s1: PState) -> Run
    decreases remaining(toks, s1.pos), 4int,
{
    match expect(toks, s1, SpecTokenCode::LPAR, SyntaxErrorKind::MissingLparAfterWhile) {
        Run::Fail(k, l) => Run::Fail(k, l),
        Run::Done(s2) => match required_expr(toks, s2, SyntaxErrorKind::InvalidWhileCondition) {
            Run::Fail(k, l) => Run::Fail(k, l),
            Run::Done(s3) => match expect(
                toks,
                s3,
                SpecTokenCode::RPAR,
                SyntaxErrorKind::MissingRparAfterWhileCondition,
            ) {
                Run::Fail(k, l) => Run::Fail(k, l),
                Run::Done(s4) => match stm(toks, s4) {
                    Step::Yes(e, sy, d) => Run::Done(after(s4, e, sy, d)),
                    Step::No => run_fail_at(toks, s4, SyntaxErrorKind::MissingWhileBody),
                    Step::Fail(k, l) => Run::Fail(k, l),
                },
            },
        },
    }
}

/// `FOR LPAR expr? SEMICOLON expr? SEMICOLON expr? RPAR`, from the token
/// after `FOR` on.
pub open spec fn for_header(toks: Seq<Token>, s1: PState) -> Run {
    match expect(toks, s1, SpecTokenCode::LPAR, SyntaxErrorKind::MissingLparAfterFor) {
        Run::Fail(k, l) => Run::Fail(k, l),
        Run::Done(s2) => match opt_expr(toks, s2) {
            Run::Fail(k, l) => Run::Fail(k, l),
            Run::Done(s3) => match expect(
                toks,
                s3,
                SpecTokenCode::SEMICOLON,
                SyntaxErrorKind::MissingFirstSemicolonInFor,
            ) {
                Run::Fail(k, l) => Run::Fail(k, l),
                Run::Done(s4) => match opt_expr(toks, s4) {
                    Run::Fail(k, l) => Run::Fail(k, l),
                    Run::Done(s5) => match expect(
                        toks,
                        s5,
                        SpecTokenCode::SEMICOLON,
                        SyntaxErrorKind::MissingSecondSemicolonInFor,
                    ) {
                        Run::Fail(k, l) => Run::Fail(k, l),
                        Run::Done(s6) => match opt_expr(toks, s6) {
                            Run::Fail(k, l) => Run::Fail(k, l),
                            Run::Done(s7) => expect(
                                toks,
                                s7,
                                SpecTokenCode::RPAR,
                                SyntaxErrorKind::MissingRparInFor,
                            ),
                        },
                    },
                },
            },
        },
    }
}

/// `FOR LPAR expr? SEMICOLON expr? SEMICOLON expr? RPAR stm`, from the
/// token after `FOR` on.
pub open spec fn for_rest(toks: Seq<Token>, s1: PState) -> Run
    decreases remaining(toks, s1.pos), 4int,
{
    match for_header(toks, s1) {
        Run::Fail(k, l) => Run::Fail(k, l),
        Run::Done(s8) => match stm(toks, s8) {
            Step::Yes(e, sy, d) => Run::Done(after(s8, e, sy, d)),
            Step::No => run_fail_at(toks, s8, SyntaxErrorKind::MissingForBody),
            Step::Fail(k, l) => Run::Fail(k, l),
        },
    }
}

/// `stm: stm_compound | IF ... | WHILE ... | FOR ... | BREAK SEMICOLON
/// | RETURN expr? SEMICOLON | expr? SEMICOLON`
pub open spec fn stm(toks: Seq<Token>, st: PState) -> Step
    decreases remaining(toks, st.pos), 2int,
{
    match stm_compound(toks, st, true) {
        Step::Yes(e, sy, d) => Step::Yes(e, sy, d),
        Step::Fail(k, l) => Step::Fail(k, l),
        Step::No => {
            if is_at(toks, st, SpecTokenCode::IF) {
                finish(st, if_rest(toks, step1(st)))
            } else if is_at(toks, st, SpecTokenCode::WHILE) {
                finish(st, while_rest(toks, step1(st)))
            } else if is_at(toks, st, SpecTokenCode::FOR) {
                finish(st, for_rest(toks, step1(st)))
            } else if is_at(toks, st, SpecTokenCode::BREAK) {
                finish(
                    st,
                    expect(
                        toks,
                        step1(st),
                        SpecTokenCode::SEMICOLON,
                        SyntaxErrorKind::MissingSemicolonAfterBreak,
                    ),
                )
            } else if is_at(toks, st, SpecTokenCode::RETURN) {
                match opt_expr(toks, step1(st)) {
                    Run::Fail(k, l) => Step::Fail(k, l),
                    Run::Done(s2) => finish(
                        st,
                        expect(
                            toks,
                            s2,
                            SpecTokenCode::SEMICOLON,
                            SyntaxErrorKind::MissingSemicolonAfterReturn,
                        ),
                    ),
                }
            } else {
                match expr(toks, st) {
                    Step::Fail(k, l) => Step::Fail(k, l),
                    Step::Yes(e, sy, d) => finish(
                        st,
                        expect(
                            toks,
                            after(st, e, sy, d),
                            SpecTokenCode::SEMICOLON,
                            SyntaxErrorKind::MissingSemicolonAfterExpr,
                        ),
                    ),
                    Step::No => {
                        if is_at(toks, st, SpecTokenCode::SEMICOLON) {
                            yes_to(st, step1(st))
                        } else {
                            Step::No
                        }
                    },
                }
            }
        },
    }
}

/// `stm_compound: LACC (var_def | stm)* RACC`; a new scope is opened for
/// it when `new_domain` holds.
pub open spec fn stm_compound(toks: Seq<Token>, st: PState, new_domain: bool) -> Step
    decreases remaining(toks, st.pos), 1int,
{
    if is_at(toks, st, SpecTokenCode::LACC) {
        let s1 = if new_domain { open_scope(step1(st)) } else { step1(st) };
        match block_body(toks, s1) {
            Run::Fail(k, l) => Step::Fail(k, l),
            Run::Done(s2) => {
                if is_at(toks, s2, SpecTokenCode::RACC) {
                    let s3 = step1(s2);
                    yes_to(st, if new_domain { close_scope(s3) } else { s3 })
                } else {
                    fail_at(toks, s2, SyntaxErrorKind::MissingRaccInCompound)
                }
            },
        }
    } else {
        Step::No
    }
}

/// The `(var_def | stm)*` of a compound statement.
pub open spec fn block_body(toks: Seq<Token>, st: PState) -> Run
    decreases remaining(toks, st.pos), 5int,
{
    if st.pos < toks.len() {
        match var_def(toks, st) {
            Step::Yes(e, sy, d) => block_body(toks, after(st, e, sy, d)),
            Step::Fail(k, l) => Run::Fail(k, l),
            Step::No => match stm(toks, st) {
                Step::Yes(e, sy, d) => block_body(toks, after(st, e, sy, d)),
                Step::Fail(k, l) => Run::Fail(k, l),
                Step::No => Run::Done(st),
            },
        }
    } else {
        // No rule applies past the last token.
        Run::Done(st)
    }
}

/// An optional array declarator after a name declared with type `t`: the
/// state after it and the type it gives.
pub open spec fn declarator(toks: Seq<Token>, st: PState, t: Type) -> Result<(PState, Type), (SyntaxErrorKind, int)> {
    match array_decl(toks, st) {
        Step::Fail(k, l) => Err((k, l)),
        Step::Yes(e, sy, d) => Ok((after(st, e, sy, d), as_array(t, array_size(toks, st)))),
        Step::No => Ok((st, t)),
    }
}

/// One declared variable: its array declarator, then its definition.
pub open spec fn declare_var(toks: Seq<Token>, st: PState, name: String, t: Type, kind: SymbolKind) -> Run {
    match declarator(toks, st, t) {
        Err((k, l)) => Run::Fail(k, l),
        Ok((s1, t1)) => match define(toks, s1, new_symbol(name, kind, t1, s1.depth)) {
            Err((k, l)) => Run::Fail(k, l),
            Ok(s2) => Run::Done(s2),
        },
    }
}

/// `var_def: type_base ID array_decl? (COMMA ID array_decl?)* SEMICOLON`
#[verifier::opaque]
pub open spec fn var_def(toks: Seq<Token>, st: PState) -> Step {
    match type_base(toks, st) {
        TypeStep::Fail(k, l) => Step::Fail(k, l),
        TypeStep::No => Step::No,
        TypeStep::Yes(t, e) => {
            let s1 = after_type(st, e);
            match id_at(toks, s1) {
                None => Step::No,
                Some(name) => match declare_var(toks, step1(s1), name, t, SymbolKind::Var) {
                    Run::Fail(k, l) => Step::Fail(k, l),
                    Run::Done(s2) => match var_tail(toks, s2, t) {
                        Run::Fail(k, l) => Step::Fail(k, l),
                        Run::Done(s3) => finish(
                            st,
                            expect(
                                toks,
                                s3,
                                SpecTokenCode::SEMICOLON,
                                SyntaxErrorKind::MissingSemicolonAfterVarDecl,
                            ),
                        ),
                    },
                },
            }
        },
    }
}

/// The repeated `COMMA ID array_decl?` of a variable definition.
pub open spec fn var_tail(toks: Seq<Token>, st: PState, t: Type) -> Run
    decreases remaining(toks, st.pos),
{
    if is_at(toks, st, SpecTokenCode::COMMA) {
        let s1 = step1(st);
        match id_at(toks, s1) {
            None => run_fail_at(toks, s1, SyntaxErrorKind::MissingVarNameAfterComma),
            Some(name) => match declare_var(toks, step1(s1), name, t, SymbolKind::Var) {
                Run::Fail(k, l) => Run::Fail(k, l),
                Run::Done(s2) => var_tail(toks, s2, t),
            },
        }
    } else {
        Run::Done(st)
    }
}

/// `fn_param: type_base ID array_decl?`
#[verifier::opaque]
pub open spec fn fn_param(toks: Seq<Token>, st: PState) -> Step {
    match type_base(toks, st) {
        TypeStep::Fail(k, l) => Step::Fail(k, l),
        TypeStep::No => Step::No,
        TypeStep::Yes(t, e) => {
            let s1 = after_type(st, e);
            match id_at(toks, s1) {
                None => fail_at(toks, s1, SyntaxErrorKind::MissingIdInParam),
                Some(name) => finish(st, declare_var(toks, step1(s1), name, t, SymbolKind::Param)),
            }
        },
    }
}

/// The repeated `COMMA fn_param` of a parameter list.
pub open spec fn param_tail(toks: Seq<Token>, st: PState) -> Run
    decreases remaining(toks, st.pos),
{
    if is_at(toks, st, SpecTokenCode::COMMA) {
        let s1 = step1(st);
        match fn_param(toks, s1) {
            Step::Yes(e, sy, d) => param_tail(toks, after(s1, e, sy, d)),
            Step::No => run_fail_at(toks, s1, SyntaxErrorKind::ExpectedParamAfterComma),
            Step::Fail(k, l) => Run::Fail(k, l),
        }
    } else {
        Run::Done(st)
    }
}

/// The return type of a function definition at `st`: `type_base` or `VOID`,
/// with the state after it.
pub open spec fn return_type(toks: Seq<Token>, st: PState) -> Result<Option<(Type, PState)>, (SyntaxErrorKind, int)> {
    match type_base(toks, st) {
        TypeStep::Fail(k, l) => Err((k, l)),
        TypeStep::Yes(t, e) => Ok(Some((t, after_type(st, e)))),
        TypeStep::No => {
            if is_at(toks, st, SpecTokenCode::VOID) {
                Ok(Some((base_type(TypeBase::Void), step1(st))))
            } else {
                Ok(None)
            }
        },
    }
}

/// The parameters and body of a function, from the token after its `LPAR`
/// (at `s1`, with the function defined and its scope open) on.
pub open spec fn fn_rest(toks: Seq<Token>, s1: PState) -> Run {
    let params = match fn_param(toks, s1) {
        Step::Fail(k, l) => Run::Fail(k, l),
        Step::No => Run::Done(s1),
        Step::Yes(e, sy, d) => param_tail(toks, after(s1, e, sy, d)),
    };
    match params {
        Run::Fail(k, l) => Run::Fail(k, l),
        Run::Done(s2) => match expect(toks, s2, SpecTokenCode::RPAR, SyntaxErrorKind::MissingRparInFnDef) {
            Run::Fail(k, l) => Run::Fail(k, l),
            Run::Done(s3) => match stm_compound(toks, s3, false) {
                Step::Fail(k, l) => Run::Fail(k, l),
                Step::No => run_fail_at(toks, s3, SyntaxErrorKind::ExpectedFnBody),
                Step::Yes(e, sy, d) => Run::Done(close_scope(after(s3, e, sy, d))),
            },
        },
    }
}

/// `fn_def: (type_base | VOID) ID LPAR (fn_param (COMMA fn_param)*)? RPAR
/// stm_compound`
#[verifier::opaque]
pub open spec fn fn_def(toks: Seq<Token>, st: PState) -> Step {
    match return_type(toks, st) {
        Err((k, l)) => Step::Fail(k, l),
        Ok(None) => Step::No,
        Ok(Some((t, s1))) => match id_at(toks, s1) {
            None => Step::No,
            Some(name) => {
                let s2 = step1(s1);
                if is_at(toks, s2, SpecTokenCode::LPAR) {
                    let s3 = step1(s2);
                    match define(toks, s3, new_symbol(name, SymbolKind::Fn, t, s3.depth)) {
                        Err((k, l)) => Step::Fail(k, l),
                        Ok(s4) => finish(st, fn_rest(toks, open_scope(s4))),
                    }
                } else {
                    Step::No
                }
            },
        },
    }
}

/// `struct_def: STRUCT ID LACC var_def* RACC SEMICOLON`
#[verifier::opaque]
pub open spec fn struct_def(toks: Seq<Token>, st: PState) -> Step {
    if is_at(toks, st, SpecTokenCode::STRUCT) {
        let s1 = step1(st);
        match id_at(toks, s1) {
            None => fail_at(toks, s1, SyntaxErrorKind::MissingIdAfterStruct),
            Some(name) => {
                let s2 = step1(s1);
                if is_at(toks, s2, SpecTokenCode::LACC) {
                    let s3 = step1(s2);
                    match define(
                        toks,
                        s3,
                        new_symbol(name, SymbolKind::Struct, base_type(TypeBase::Struct), s3.depth),
                    ) {
                        Err((k, l)) => Step::Fail(k, l),
                        Ok(s4) => match struct_members(toks, open_scope(s4)) {
                            Run::Fail(k, l) => Step::Fail(k, l),
                            Run::Done(s5) => {
                                if is_at(toks, s5, SpecTokenCode::RACC) {
                                    finish(
                                        st,
                                        expect(
                                            toks,
                                            close_scope(step1(s5)),
                                            SpecTokenCode::SEMICOLON,
                                            SyntaxErrorKind::MissingSemicolonAfterStruct,
                                        ),
                                    )
                                } else {
                                    fail_at(toks, s5, SyntaxErrorKind::MissingRaccInStruct)
                                }
                            },
                        },
                    }
                } else {
                    Step::No
                }
            },
        }
    } else {
        Step::No
    }
}

/// The `var_def*` of a struct definition.
pub open spec fn struct_members(toks: Seq<Token>, st: PState) -> Run
    decreases remaining(toks, st.pos),
{
    if st.pos < toks.len() {
        match var_def(toks, st) {
            Step::Yes(e, sy, d) => struct_members(toks, after(st, e, sy, d)),
            Step::Fail(k, l) => Run::Fail(k, l),
            Step::No => Run::Done(st),
        }
    } else {
        // No rule applies past the last token.
        Run::Done(st)
    }
}

/// The `(struct_def | fn_def | var_def)*` of a unit.
pub open spec fn unit_items(toks: Seq<Token>, st: PState) -> Run
    decreases remaining(toks, st.pos),
{
    if st.pos < toks.len() {
        match struct_def(toks, st) {
            Step::Yes(e, sy, d) => unit_items(toks, after(st, e, sy, d)),
            Step::Fail(k, l) => Run::Fail(k, l),
            Step::No => match fn_def(toks, st) {
                Step::Yes(e, sy, d) => unit_items(toks, after(st, e, sy, d)),
                Step::Fail(k, l) => Run::Fail(k, l),
                Step::No => match var_def(toks, st) {
                    Step::Yes(e, sy, d) => unit_items(toks, after(st, e, sy, d)),
                    Step::Fail(k, l) => Run::Fail(k, l),
                    Step::No => Run::Done(st),
                },
            },
        }
    } else {
        // No rule applies past the last token.
        Run::Done(st)
    }
}

/// `unit: (struct_def | fn_def | var_def)* END`: the state after `END`, or
/// the refusal with its line.
pub open spec fn unit(toks: Seq<Token>, st: PState) -> Result<PState, (SyntaxErrorKind, int)> {
    match unit_items(toks, st) {
        Run::Fail(k, l) => Err((k, l)),
        Run::Done(s1) => {
            if is_at(toks, s1, SpecTokenCode::END) {
                Ok(step1(s1))
            } else {
                Err((SyntaxErrorKind::ExpectedTopLevel, line_at(toks, s1.pos)))
            }
        },
    }
}

} // verus!
