//! Laws of the syntax: what the checker accepts, stated over the tokens
//! themselves.
use vstd::prelude::*;
use crate::grammar::{
    after, binary, binary_tail, call_suffix, expr, expr_assign, expr_cast, expr_postfix,
    expr_primary, constant_at, type_base, TypeStep, id_at, is_at, op_at, postfix_tail, args_tail, unit, param_tail, step1, stm, fn_param, struct_members, SyntaxErrorKind, stm_compound, block_body, array_decl, var_tail, new_symbol, base_type, open_scope, struct_def, fn_def, var_def, unit_items, unary, yes_to, BinLevel, PState,
    Run, Step,
};
use crate::symbol::{MemClass, Symbol, SymbolKind, Type, TypeBase};
use crate::symtable::{
    at_depth, defined_at, depths_within, grows_at, law_close_after_growth, lemma_grows_define, lemma_grows_refl,
};
use crate::token::{SpecTokenCode, Token};

verus! {

/// The four relational operators.
pub open spec fn is_relational_op(c: SpecTokenCode) -> bool {
    c == SpecTokenCode::LESS || c == SpecTokenCode::LESSEQ || c == SpecTokenCode::GREATER
        || c == SpecTokenCode::GREATEREQ
}

/// Tokens that end an expression: no operator, index, member access or call
/// goes on with them.
pub open spec fn closes_expr(c: SpecTokenCode) -> bool {
    c == SpecTokenCode::RPAR || c == SpecTokenCode::RBRACKET || c == SpecTokenCode::SEMICOLON
        || c == SpecTokenCode::COMMA || c == SpecTokenCode::END
}

/// Whether the token at `pos` is an identifier.
pub open spec fn name_at(toks: Seq<Token>, pos: int) -> bool {
    0 <= pos < toks.len() && toks[pos].code is ID
}

/// A name followed by a token that neither calls, indexes nor selects from
/// it is a one-token operand.
proof fn lemma_name_operand(toks: Seq<Token>, st: PState)
    requires
        name_at(toks, st.pos),
        st.pos + 1 < toks.len(),
        toks[st.pos + 1].code@ != SpecTokenCode::LPAR,
        toks[st.pos + 1].code@ != SpecTokenCode::LBRACKET,
        toks[st.pos + 1].code@ != SpecTokenCode::DOT,
    ensures
        unary(toks, st) == yes_to(st, step1(st)),
        expr_cast(toks, st) == yes_to(st, step1(st)),
{
    assert(id_at(toks, st) is Some);
    assert(call_suffix(toks, step1(st)) == Run::Done(step1(st)));
    assert(expr_primary(toks, st) == yes_to(st, step1(st)));
    assert(postfix_tail(toks, step1(st)) == Run::Done(step1(st)));
    assert(expr_postfix(toks, st) == yes_to(st, step1(st)));
}

/// A one-token operand followed by an operator of no level at or below `l`
/// (or by a token that ends the expression) is the whole operand at `l`.
proof fn lemma_operand_at_level(toks: Seq<Token>, st: PState, l: BinLevel)
    requires
        name_at(toks, st.pos),
        st.pos + 1 < toks.len(),
        toks[st.pos + 1].code@ != SpecTokenCode::LPAR,
        toks[st.pos + 1].code@ != SpecTokenCode::LBRACKET,
        toks[st.pos + 1].code@ != SpecTokenCode::DOT,
        forall|m: BinLevel| level_below(m, l) ==> !#[trigger] op_at(toks, step1(st), m),
    ensures
        binary(toks, st, l) == yes_to(st, step1(st)),
    decreases level_index(l),
{
    lemma_name_operand(toks, st);
    match l {
        BinLevel::Multiplicative => {},
        BinLevel::Additive => {
            lemma_operand_at_level(toks, st, BinLevel::Multiplicative);
        },
        BinLevel::Relational => {
            lemma_operand_at_level(toks, st, BinLevel::Additive);
        },
        BinLevel::Equality => {
            lemma_operand_at_level(toks, st, BinLevel::Relational);
        },
        BinLevel::And => {
            lemma_operand_at_level(toks, st, BinLevel::Equality);
        },
        BinLevel::Or => {
            lemma_operand_at_level(toks, st, BinLevel::And);
        },
    }
    assert(!op_at(toks, step1(st), l));
    assert(binary_tail(toks, step1(st), l) == Run::Done(step1(st)));
}

/// The position of a level, tightest first.
pub open spec fn level_index(l: BinLevel) -> nat {
    match l {
        BinLevel::Multiplicative => 0,
        BinLevel::Additive => 1,
        BinLevel::Relational => 2,
        BinLevel::Equality => 3,
        BinLevel::And => 4,
        BinLevel::Or => 5,
    }
}

/// Whether `m` binds at least as tightly as `l`.
pub open spec fn level_below(m: BinLevel, l: BinLevel) -> bool {
    level_index(m) <= level_index(l)
}

/// Law: each of the four relational operators `<`, `<=`, `>`, `>=` joins two
/// names into one expression: on `ID op ID` followed by a token that ends the
/// expression, the relational level and the whole expression rule apply and
/// use exactly the three tokens, leaving the symbol table as it was.
pub proof fn law_relational_operators(toks: Seq<Token>, st: PState)
    requires
        0 <= st.pos,
        st.pos + 3 < toks.len(),
        name_at(toks, st.pos),
        is_relational_op(toks[st.pos + 1].code@),
        name_at(toks, st.pos + 2),
        closes_expr(toks[st.pos + 3].code@),
    ensures
        binary(toks, st, BinLevel::Relational) == Step::Yes(2, st.syms, st.depth),
        expr(toks, st) == Step::Yes(2, st.syms, st.depth),
{
    let s1 = step1(st);
    let s2 = step1(s1);
    let s3 = step1(s2);
    assert forall|m: BinLevel| level_below(m, BinLevel::Additive) implies !#[trigger] op_at(toks, s1, m) by {}
    lemma_operand_at_level(toks, st, BinLevel::Additive);
    assert forall|m: BinLevel| level_below(m, BinLevel::Additive) implies !#[trigger] op_at(toks, s3, m) by {}
    lemma_operand_at_level(toks, s2, BinLevel::Additive);
    assert(op_at(toks, s1, BinLevel::Relational));
    assert(binary_tail(toks, s3, BinLevel::Relational) == Run::Done(s3));
    assert(binary_tail(toks, s1, BinLevel::Relational) == Run::Done(s3));
    assert(binary(toks, st, BinLevel::Relational) == yes_to(st, s3));
    // The looser levels take the relational expression whole.
    assert(binary_tail(toks, s3, BinLevel::Equality) == Run::Done(s3));
    assert(binary(toks, st, BinLevel::Equality) == yes_to(st, s3));
    assert(binary_tail(toks, s3, BinLevel::And) == Run::Done(s3));
    assert(binary(toks, st, BinLevel::And) == yes_to(st, s3));
    assert(binary_tail(toks, s3, BinLevel::Or) == Run::Done(s3));
    assert(binary(toks, st, BinLevel::Or) == yes_to(st, s3));
    lemma_name_operand(toks, st);
    assert(!is_at(toks, after(st, 0, st.syms, st.depth), SpecTokenCode::ASSIGN));
    assert(expr_assign(toks, st) == yes_to(st, s3));
    reveal(expr);
}

/// The twelve binary operators.
pub open spec fn is_binary_op(c: SpecTokenCode) -> bool {
    ||| c == SpecTokenCode::OR
    ||| c == SpecTokenCode::AND
    ||| c == SpecTokenCode::EQUAL
    ||| c == SpecTokenCode::NOTEQ
    ||| is_relational_op(c)
    ||| c == SpecTokenCode::ADD
    ||| c == SpecTokenCode::SUB
    ||| c == SpecTokenCode::MUL
    ||| c == SpecTokenCode::DIV
}

/// The level just tighter than `l` (the tightest level has none).
pub open spec fn tighter(l: BinLevel) -> BinLevel {
    match l {
        BinLevel::Or => BinLevel::And,
        BinLevel::And => BinLevel::Equality,
        BinLevel::Equality => BinLevel::Relational,
        BinLevel::Relational => BinLevel::Additive,
        _ => BinLevel::Multiplicative,
    }
}

/// A name as the operand of a level-`l` operator, followed by a token
/// that no tighter level continues with.
proof fn lemma_operand_below(toks: Seq<Token>, st: PState, l: BinLevel)
    requires
        name_at(toks, st.pos),
        st.pos + 1 < toks.len(),
        toks[st.pos + 1].code@ != SpecTokenCode::LPAR,
        toks[st.pos + 1].code@ != SpecTokenCode::LBRACKET,
        toks[st.pos + 1].code@ != SpecTokenCode::DOT,
        forall|m: BinLevel| level_index(m) < level_index(l) ==> !#[trigger] op_at(toks, step1(st), m),
    ensures
        (match l {
            BinLevel::Multiplicative => expr_cast(toks, st),
            _ => binary(toks, st, tighter(l)),
        }) == yes_to(st, step1(st)),
{
    lemma_name_operand(toks, st);
    if l != BinLevel::Multiplicative {
        lemma_operand_at_level(toks, st, tighter(l));
    }
}

/// `ID op ID` with `op` of level `l` is one expression at level `l`, and at
/// every looser level.
proof fn lemma_pair(toks: Seq<Token>, st: PState, l: BinLevel, l2: BinLevel)
    requires
        0 <= st.pos,
        st.pos + 3 < toks.len(),
        name_at(toks, st.pos),
        name_at(toks, st.pos + 2),
        closes_expr(toks[st.pos + 3].code@),
        op_at(toks, step1(st), l),
        forall|m: BinLevel| m != l ==> !#[trigger] op_at(toks, step1(st), m),
        level_index(l) <= level_index(l2),
    ensures
        binary(toks, st, l2) == yes_to(st, step1(step1(step1(st)))),
    decreases level_index(l2),
{
    let s1 = step1(st);
    let s2 = step1(s1);
    let s3 = step1(s2);
    assert(!op_at(toks, s3, l2));
    if l2 == l {
        lemma_operand_below(toks, st, l);
        assert forall|m: BinLevel| level_index(m) < level_index(l) implies !#[trigger] op_at(toks, s3, m) by {}
        lemma_operand_below(toks, s2, l);
        assert(binary_tail(toks, s3, l) == Run::Done(s3));
        assert(binary_tail(toks, s1, l) == Run::Done(s3));
    } else {
        let t = tighter(l2);
        lemma_pair(toks, st, l, t);
        assert(binary_tail(toks, s3, l2) == Run::Done(s3));
    }
}

/// The level of a binary operator.
pub open spec fn level_of(c: SpecTokenCode) -> BinLevel {
    if c == SpecTokenCode::OR {
        BinLevel::Or
    } else if c == SpecTokenCode::AND {
        BinLevel::And
    } else if c == SpecTokenCode::EQUAL || c == SpecTokenCode::NOTEQ {
        BinLevel::Equality
    } else if is_relational_op(c) {
        BinLevel::Relational
    } else if c == SpecTokenCode::ADD || c == SpecTokenCode::SUB {
        BinLevel::Additive
    } else {
        BinLevel::Multiplicative
    }
}

/// Law: each of the twelve binary operators (`||`, `&&`, `==`, `!=`, `<`,
/// `<=`, `>`, `>=`, `+`, `-`, `*`, `/`) joins two names into one
/// expression: on `ID op ID` followed by a token that ends the expression,
/// the expression rule applies and uses exactly the three tokens, leaving
/// the symbol table as it was.
pub proof fn law_binary_operators(toks: Seq<Token>, st: PState)
    requires
        0 <= st.pos,
        st.pos + 3 < toks.len(),
        name_at(toks, st.pos),
        is_binary_op(toks[st.pos + 1].code@),
        name_at(toks, st.pos + 2),
        closes_expr(toks[st.pos + 3].code@),
    ensures
        expr(toks, st) == Step::Yes(2, st.syms, st.depth),
{
    let s1 = step1(st);
    let s3 = step1(step1(s1));
    let l = level_of(toks[st.pos + 1].code@);
    assert(op_at(toks, s1, l));
    assert forall|m: BinLevel| m != l implies !#[trigger] op_at(toks, s1, m) by {}
    lemma_pair(toks, st, l, BinLevel::Or);
    lemma_name_operand(toks, st);
    assert(!is_at(toks, after(st, 0, st.syms, st.depth), SpecTokenCode::ASSIGN));
    assert(expr_assign(toks, st) == yes_to(st, s3));
    reveal(expr);
}

/// Where a rule that applied at `st` stopped (`st` itself if it did not
/// apply).
pub open spec fn end_of(st: PState, r: Step) -> PState {
    match r {
        Step::Yes(e, sy, d) => after(st, e, sy, d),
        _ => st,
    }
}

/// Law: the `else` branch of an `if` is optional. On `IF LPAR cond RPAR
/// branch` where the condition is an expression and the branch a
/// statement: when no `ELSE` follows the branch, the `if` statement applies
/// and ends right after the branch; when an `ELSE` and a statement follow,
/// it ends after that statement.
pub proof fn law_if_else_optional(toks: Seq<Token>, st: PState)
    requires
        0 <= st.pos,
        is_at(toks, st, SpecTokenCode::IF),
        is_at(toks, step1(st), SpecTokenCode::LPAR),
        expr(toks, step1(step1(st))) is Yes,
        is_at(toks, end_of(step1(step1(st)), expr(toks, step1(step1(st)))), SpecTokenCode::RPAR),
        stm(toks, step1(end_of(step1(step1(st)), expr(toks, step1(step1(st)))))) is Yes,
    ensures
        ({
            let s4 = step1(end_of(step1(step1(st)), expr(toks, step1(step1(st)))));
            let s5 = end_of(s4, stm(toks, s4));
            &&& !is_at(toks, s5, SpecTokenCode::ELSE) ==> stm(toks, st) == yes_to(st, s5)
            &&& is_at(toks, s5, SpecTokenCode::ELSE) && stm(toks, step1(s5)) is Yes ==> stm(toks, st)
                == yes_to(st, end_of(step1(s5), stm(toks, step1(s5))))
        }),
{
    assert(!is_at(toks, st, SpecTokenCode::LACC));
}

/// Law: the items of a unit may come in any order. Wherever the checker
/// stands in a unit, an item that applies there (a struct definition, else
/// a function definition, else a variable definition) is taken, and the unit
/// goes on right after it, whatever came before.
pub proof fn law_items_in_any_order(toks: Seq<Token>, st: PState)
    requires
        0 <= st.pos < toks.len(),
    ensures
        struct_def(toks, st) is Yes ==> unit_items(toks, st) == unit_items(
            toks,
            end_of(st, struct_def(toks, st)),
        ),
        struct_def(toks, st) is No && fn_def(toks, st) is Yes ==> unit_items(toks, st)
            == unit_items(toks, end_of(st, fn_def(toks, st))),
        struct_def(toks, st) is No && fn_def(toks, st) is No && var_def(toks, st) is Yes
            ==> unit_items(toks, st) == unit_items(toks, end_of(st, var_def(toks, st))),
{
}

/// Law: a global `int NAME;` is defined wherever it stands in a unit, after
/// any item: when the name is not yet defined at the current depth, the
/// unit takes the three tokens, adds the variable to the table, and goes
/// on after the `;`.
pub proof fn law_int_variable_anywhere(toks: Seq<Token>, st: PState)
    requires
        0 <= st.pos,
        st.pos + 2 < toks.len(),
        is_at(toks, st, SpecTokenCode::INT),
        name_at(toks, st.pos + 1),
        is_at(toks, step1(step1(st)), SpecTokenCode::SEMICOLON),
        !defined_at(st.syms, toks[st.pos + 1].code->ID_0@, st.depth as i32),
    ensures
        unit_items(toks, st) == unit_items(
            toks,
            PState {
                pos: st.pos + 3,
                syms: st.syms.push(
                    Symbol {
                        name: toks[st.pos + 1].code->ID_0,
                        kind: SymbolKind::Var,
                        mem: MemClass::NotApplicable,
                        type_info: Type { tb: TypeBase::Int, struct_name: None, elements: -1i32 },
                        depth: st.depth as i32,
                        args: None,
                        locals: None,
                        members: None,
                    },
                ),
                depth: st.depth,
            },
        ),
{
    reveal(struct_def);
    reveal(fn_def);
    reveal(var_def);
    let s1 = step1(st);
    let s2 = step1(s1);
    assert(id_at(toks, s1) == Some(toks[st.pos + 1].code->ID_0));
    assert(!is_at(toks, s2, SpecTokenCode::LPAR));
    assert(fn_def(toks, st) is No);
    assert(struct_def(toks, st) is No);
}

/// Tokens with which no expression starts: anything but a name, a
/// constant, `(`, `-` and `!`.
pub open spec fn starts_no_expr(c: SpecTokenCode) -> bool {
    !(c is ID || c is CtInt || c is CtReal || c is CtChar || c is CtString || c == SpecTokenCode::LPAR
        || c == SpecTokenCode::SUB || c == SpecTokenCode::NOT)
}

/// No operand starts at a token that starts no expression, at any level.
proof fn lemma_no_operand(toks: Seq<Token>, st: PState, l: BinLevel)
    requires
        0 <= st.pos < toks.len(),
        starts_no_expr(toks[st.pos].code@),
    ensures
        unary(toks, st) is No,
        expr_cast(toks, st) is No,
        binary(toks, st, l) is No,
    decreases level_index(l),
{
    assert(id_at(toks, st) is None);
    assert(expr_primary(toks, st) is No);
    assert(expr_postfix(toks, st) is No);
    assert(unary(toks, st) is No);
    assert(expr_cast(toks, st) is No);
    if l != BinLevel::Multiplicative {
        lemma_no_operand(toks, st, tighter(l));
    }
}

/// No expression starts at a token that starts none.
proof fn lemma_no_expr(toks: Seq<Token>, st: PState)
    requires
        0 <= st.pos < toks.len(),
        starts_no_expr(toks[st.pos].code@),
    ensures
        expr(toks, st) is No,
{
    lemma_no_operand(toks, st, BinLevel::Or);
    assert(expr_assign(toks, st) is No);
    reveal(expr);
}

/// Law: a `while` statement is `WHILE LPAR cond RPAR body`; where the
/// condition is an expression and the body a statement, it applies and ends
/// right after the body.
pub proof fn law_while_statement(toks: Seq<Token>, st: PState)
    requires
        0 <= st.pos,
        is_at(toks, st, SpecTokenCode::WHILE),
        is_at(toks, step1(st), SpecTokenCode::LPAR),
        expr(toks, step1(step1(st))) is Yes,
        is_at(toks, end_of(step1(step1(st)), expr(toks, step1(step1(st)))), SpecTokenCode::RPAR),
        stm(toks, step1(end_of(step1(step1(st)), expr(toks, step1(step1(st)))))) is Yes,
    ensures
        ({
            let s4 = step1(end_of(step1(step1(st)), expr(toks, step1(step1(st)))));
            stm(toks, st) == yes_to(st, end_of(s4, stm(toks, s4)))
        }),
{
    assert(!is_at(toks, st, SpecTokenCode::LACC));
}

/// Where an optional expression at `st` stops.
pub open spec fn opt_end(toks: Seq<Token>, st: PState) -> PState {
    end_of(st, expr(toks, st))
}

/// Law: a `for` statement is `FOR LPAR init? SEMICOLON cond? SEMICOLON
/// step? RPAR body`; where each of the three parts is absent or an
/// expression and the body is a statement, it applies and ends right after
/// the body.
pub proof fn law_for_statement(toks: Seq<Token>, st: PState)
    requires
        0 <= st.pos,
        is_at(toks, st, SpecTokenCode::FOR),
        is_at(toks, step1(st), SpecTokenCode::LPAR),
        !(expr(toks, step1(step1(st))) is Fail),
        is_at(toks, opt_end(toks, step1(step1(st))), SpecTokenCode::SEMICOLON),
        !(expr(toks, step1(opt_end(toks, step1(step1(st))))) is Fail),
        is_at(toks, opt_end(toks, step1(opt_end(toks, step1(step1(st))))), SpecTokenCode::SEMICOLON),
        !(expr(toks, step1(opt_end(toks, step1(opt_end(toks, step1(step1(st))))))) is Fail),
        is_at(
            toks,
            opt_end(toks, step1(opt_end(toks, step1(opt_end(toks, step1(step1(st))))))),
            SpecTokenCode::RPAR,
        ),
        stm(toks, step1(opt_end(toks, step1(opt_end(toks, step1(opt_end(toks, step1(step1(st))))))))) is Yes,
    ensures
        ({
            let s8 = step1(opt_end(toks, step1(opt_end(toks, step1(opt_end(toks, step1(step1(st))))))));
            stm(toks, st) == yes_to(st, end_of(s8, stm(toks, s8)))
        }),
{
    assert(!is_at(toks, st, SpecTokenCode::LACC));
}

/// Law: `BREAK SEMICOLON`, `RETURN SEMICOLON`, `RETURN expr SEMICOLON`, a
/// lone `SEMICOLON` and `expr SEMICOLON` are statements that end right after
/// their `;` and leave the symbol table as it was.
pub proof fn law_simple_statements(toks: Seq<Token>, st: PState)
    requires
        0 <= st.pos < toks.len(),
    ensures
        is_at(toks, st, SpecTokenCode::BREAK) && is_at(toks, step1(st), SpecTokenCode::SEMICOLON)
            ==> stm(toks, st) == Step::Yes(1, st.syms, st.depth),
        is_at(toks, st, SpecTokenCode::RETURN) && is_at(toks, step1(st), SpecTokenCode::SEMICOLON)
            ==> stm(toks, st) == Step::Yes(1, st.syms, st.depth),
        is_at(toks, st, SpecTokenCode::RETURN) && expr(toks, step1(st)) is Yes && is_at(
            toks,
            end_of(step1(st), expr(toks, step1(st))),
            SpecTokenCode::SEMICOLON,
        ) ==> stm(toks, st) == yes_to(st, step1(end_of(step1(st), expr(toks, step1(st))))),
        is_at(toks, st, SpecTokenCode::SEMICOLON) ==> stm(toks, st) == Step::Yes(0, st.syms, st.depth),
        starts_expr_statement(toks[st.pos].code@) && expr(toks, st) is Yes && is_at(
            toks,
            end_of(st, expr(toks, st)),
            SpecTokenCode::SEMICOLON,
        ) ==> stm(toks, st) == yes_to(st, step1(end_of(st, expr(toks, st)))),
{
    if is_at(toks, step1(st), SpecTokenCode::SEMICOLON) {
        lemma_no_expr(toks, step1(st));
    }
    if is_at(toks, st, SpecTokenCode::SEMICOLON) {
        lemma_no_expr(toks, st);
    }
}

/// Tokens with which an expression statement may start: none of the
/// keywords or braces that start another statement.
pub open spec fn starts_expr_statement(c: SpecTokenCode) -> bool {
    c != SpecTokenCode::LACC && c != SpecTokenCode::IF && c != SpecTokenCode::WHILE && c
        != SpecTokenCode::FOR && c != SpecTokenCode::BREAK && c != SpecTokenCode::RETURN
}

/// A block that closes at once holds nothing.
proof fn lemma_empty_block_body(toks: Seq<Token>, s1: PState)
    requires
        0 <= s1.pos < toks.len(),
        toks[s1.pos].code@ == SpecTokenCode::RACC,
    ensures
        block_body(toks, s1) == Run::Done(s1),
{
    reveal(var_def);
    lemma_no_expr(toks, s1);
    assert(var_def(toks, s1) is No);
    assert(stm(toks, s1) is No);
}

/// Law: a compound statement opens a scope of its own and closes it: `{ }`
/// and `{ int NAME; }` are statements that leave the symbol table as it was
/// (the variable goes when the block closes), whatever names the table
/// already holds.
pub proof fn law_compound_statements(toks: Seq<Token>, st: PState)
    requires
        0 <= st.pos,
        0 <= st.depth < i32::MAX,
        depths_within(st.syms, st.depth),
    ensures
        is_at(toks, st, SpecTokenCode::LACC) && is_at(toks, step1(st), SpecTokenCode::RACC) ==> stm(
            toks,
            st,
        ) == Step::Yes(1, st.syms, st.depth),
        st.pos + 4 < toks.len() && is_at(toks, st, SpecTokenCode::LACC) && toks[st.pos + 1].code@
            == SpecTokenCode::INT && name_at(toks, st.pos + 2) && toks[st.pos + 3].code@
            == SpecTokenCode::SEMICOLON && toks[st.pos + 4].code@ == SpecTokenCode::RACC ==> stm(
            toks,
            st,
        ) == Step::Yes(4, st.syms, st.depth),
{
    let d = st.depth as i32;
    lemma_grows_refl(st.syms, st.depth + 1);
    law_close_after_growth(st.syms, st.syms, d);
    let s1 = open_scope(step1(st));
    if is_at(toks, st, SpecTokenCode::LACC) && is_at(toks, step1(st), SpecTokenCode::RACC) {
        lemma_empty_block_body(toks, s1);
        assert(stm_compound(toks, st, true) == Step::Yes(1, st.syms, st.depth));
    }
    if st.pos + 4 < toks.len() && is_at(toks, st, SpecTokenCode::LACC) && toks[st.pos + 1].code@
        == SpecTokenCode::INT && name_at(toks, st.pos + 2) && toks[st.pos + 3].code@
        == SpecTokenCode::SEMICOLON && toks[st.pos + 4].code@ == SpecTokenCode::RACC {
        reveal(var_def);
        let name = toks[st.pos + 2].code->ID_0;
        let x = at_depth(
            new_symbol(name, SymbolKind::Var, base_type(TypeBase::Int), st.depth + 1),
            (st.depth + 1) as i32,
        );
        let inner = st.syms.push(x);
        assert(!defined_at(st.syms, name@, (st.depth + 1) as i32));
        let s4 = PState { pos: st.pos + 4, syms: inner, depth: st.depth + 1 };
        let s3 = PState { pos: st.pos + 3, syms: inner, depth: st.depth + 1 };
        assert(array_decl(toks, s3) is No);
        assert(var_tail(toks, s3, base_type(TypeBase::Int)) == Run::Done(s3));
        assert(var_def(toks, s1) == yes_to(s1, s4));
        lemma_empty_block_body(toks, s4);
        assert(block_body(toks, s1) == Run::Done(s4));
        lemma_grows_define(st.syms, new_symbol(name, SymbolKind::Var, base_type(TypeBase::Int), st.depth + 1), (st.depth + 1) as i32);
        law_close_after_growth(st.syms, inner, d);
        assert(stm_compound(toks, st, true) == Step::Yes(4, st.syms, st.depth));
    }
}

/// Whether the token at `i` is `c`.
pub open spec fn tok_is(toks: Seq<Token>, i: int, c: SpecTokenCode) -> bool {
    0 <= i < toks.len() && toks[i].code@ == c
}

/// Whether the token at `i` ends an expression.
pub open spec fn closes_at(toks: Seq<Token>, i: int) -> bool {
    0 <= i < toks.len() && closes_expr(toks[i].code@)
}

/// An operand that ends where the expression ends is the whole operand at
/// every level.
proof fn lemma_operand_level(toks: Seq<Token>, st: PState, end: PState, l: BinLevel)
    requires
        expr_cast(toks, st) == yes_to(st, end),
        end.pos > st.pos,
        closes_at(toks, end.pos),
    ensures
        binary(toks, st, l) == yes_to(st, end),
    decreases level_index(l),
{
    assert(!op_at(toks, end, l));
    assert(binary_tail(toks, end, l) == Run::Done(end));
    if l != BinLevel::Multiplicative {
        lemma_operand_level(toks, st, end, tighter(l));
    }
}

/// An operand that ends where the expression ends is the whole expression.
proof fn lemma_operand_expr(toks: Seq<Token>, st: PState, end: PState)
    requires
        expr_cast(toks, st) == yes_to(st, end),
        end.pos > st.pos,
        closes_at(toks, end.pos),
        unary(toks, st) is No || unary(toks, st) == yes_to(st, end),
    ensures
        expr(toks, st) == yes_to(st, end),
{
    lemma_operand_level(toks, st, end, BinLevel::Or);
    assert(!is_at(toks, end, SpecTokenCode::ASSIGN));
    assert(expr_assign(toks, st) == yes_to(st, end));
    reveal(expr);
}

/// A name followed by a token that ends the expression is an expression.
proof fn lemma_name_expr(toks: Seq<Token>, st: PState)
    requires
        0 <= st.pos,
        name_at(toks, st.pos),
        closes_at(toks, st.pos + 1),
    ensures
        expr(toks, st) == yes_to(st, step1(st)),
{
    lemma_name_operand(toks, st);
    lemma_operand_expr(toks, st, step1(st));
}


/// A name not followed by `(` is a primary expression of one token.
proof fn lemma_primary_name(toks: Seq<Token>, st: PState)
    requires
        0 <= st.pos,
        name_at(toks, st.pos),
        !tok_is(toks, st.pos + 1, SpecTokenCode::LPAR),
    ensures
        expr_primary(toks, st) == yes_to(st, step1(st)),
{
    assert(id_at(toks, st) is Some);
    assert(call_suffix(toks, step1(st)) == Run::Done(step1(st)));
}

/// A postfix expression made of a primary expression and its postfix part;
/// not starting with `-`, `!` or `(`, it is the whole operand.
proof fn lemma_postfix_operand(toks: Seq<Token>, st: PState, s1: PState, end: PState)
    requires
        0 <= st.pos < toks.len(),
        expr_primary(toks, st) == yes_to(st, s1),
        s1.pos > st.pos,
        postfix_tail(toks, s1) == Run::Done(end),
        end.pos >= s1.pos,
        toks[st.pos].code@ != SpecTokenCode::SUB,
        toks[st.pos].code@ != SpecTokenCode::NOT,
        toks[st.pos].code@ != SpecTokenCode::LPAR,
    ensures
        unary(toks, st) == yes_to(st, end),
        expr_cast(toks, st) == yes_to(st, end),
{
    assert(after(st, (s1.pos - st.pos - 1) as nat, s1.syms, s1.depth) == s1);
    assert(expr_postfix(toks, st) == yes_to(st, end));
}

/// `[ y ]` after an operand, then a token that ends the expression.
proof fn lemma_index_tail(toks: Seq<Token>, s1: PState)
    requires
        0 <= s1.pos,
        tok_is(toks, s1.pos, SpecTokenCode::LBRACKET),
        name_at(toks, s1.pos + 1),
        tok_is(toks, s1.pos + 2, SpecTokenCode::RBRACKET),
        closes_at(toks, s1.pos + 3),
    ensures
        postfix_tail(toks, s1) == Run::Done(step1(step1(step1(s1)))),
{
    let s2 = step1(s1);
    let s3 = step1(s2);
    let s4 = step1(s3);
    lemma_name_expr(toks, s2);
    assert(postfix_tail(toks, s4) == Run::Done(s4));
    reveal(expr);
}

/// `( x , y )` after a name, as the arguments of a call.
proof fn lemma_two_arguments(toks: Seq<Token>, s1: PState)
    requires
        0 <= s1.pos,
        tok_is(toks, s1.pos, SpecTokenCode::LPAR),
        name_at(toks, s1.pos + 1),
        tok_is(toks, s1.pos + 2, SpecTokenCode::COMMA),
        name_at(toks, s1.pos + 3),
        tok_is(toks, s1.pos + 4, SpecTokenCode::RPAR),
    ensures
        call_suffix(toks, s1) == Run::Done(step1(step1(step1(step1(step1(s1)))))),
{
    reveal(expr);
    let s2 = step1(s1);
    let s3 = step1(s2);
    let s4 = step1(s3);
    let s5 = step1(s4);
    lemma_name_expr(toks, s2);
    lemma_name_expr(toks, s4);
    assert(args_tail(toks, s5) == Run::Done(s5));
    assert(args_tail(toks, s3) == Run::Done(s5));
}

/// Law: a constant, followed by a token that ends the expression, is read whole
/// as one expression and leaves the symbol table as it was.
pub proof fn law_constant_expr(toks: Seq<Token>, st: PState)
    requires
        0 <= st.pos < toks.len(),
        toks[st.pos].code is CtInt || toks[st.pos].code is CtReal || toks[st.pos].code is CtChar
            || toks[st.pos].code is CtString,
        closes_at(toks, st.pos + 1),
    ensures
        expr(toks, st) == Step::Yes(0, st.syms, st.depth),
{
    let s1 = step1(st);
    let s2 = step1(s1);
    let s3 = step1(s2);
    let s4 = step1(s3);
    let s5 = step1(s4);
    let s6 = step1(s5);
    assert(constant_at(toks, st));
    assert(expr_primary(toks, st) == yes_to(st, s1));
    assert(postfix_tail(toks, s1) == Run::Done(s1));
    assert(expr_postfix(toks, st) == yes_to(st, s1));
    assert(unary(toks, st) == yes_to(st, s1));
    lemma_operand_expr(toks, st, s1);
}

/// Law: `-x` and `!x`, followed by a token that ends the expression, is read whole
/// as one expression and leaves the symbol table as it was.
pub proof fn law_unary_expr(toks: Seq<Token>, st: PState)
    requires
        0 <= st.pos < toks.len(),
        tok_is(toks, st.pos, SpecTokenCode::SUB) || tok_is(toks, st.pos, SpecTokenCode::NOT),
        name_at(toks, st.pos + 1),
        closes_at(toks, st.pos + 2),
    ensures
        expr(toks, st) == Step::Yes(1, st.syms, st.depth),
{
    let s1 = step1(st);
    let s2 = step1(s1);
    let s3 = step1(s2);
    let s4 = step1(s3);
    let s5 = step1(s4);
    let s6 = step1(s5);
    lemma_name_operand(toks, s1);
    assert(unary(toks, st) == yes_to(st, s2));
    lemma_operand_expr(toks, st, s2);
}

/// Law: the assignment `x = y`, followed by a token that ends the expression, is read whole
/// as one expression and leaves the symbol table as it was.
pub proof fn law_assignment_expr(toks: Seq<Token>, st: PState)
    requires
        0 <= st.pos < toks.len(),
        name_at(toks, st.pos),
        tok_is(toks, st.pos + 1, SpecTokenCode::ASSIGN),
        name_at(toks, st.pos + 2),
        closes_at(toks, st.pos + 3),
    ensures
        expr(toks, st) == Step::Yes(2, st.syms, st.depth),
{
    let s1 = step1(st);
    let s2 = step1(s1);
    let s3 = step1(s2);
    let s4 = step1(s3);
    let s5 = step1(s4);
    let s6 = step1(s5);
    lemma_name_operand(toks, st);
    lemma_name_expr(toks, s2);
    reveal(expr);
    assert(expr_assign(toks, s2) == yes_to(s2, s3));
    assert(expr_assign(toks, st) == yes_to(st, s3));
}

/// Law: the index `x[y]`, followed by a token that ends the expression, is read whole
/// as one expression and leaves the symbol table as it was.
pub proof fn law_index_expr(toks: Seq<Token>, st: PState)
    requires
        0 <= st.pos < toks.len(),
        name_at(toks, st.pos),
        tok_is(toks, st.pos + 1, SpecTokenCode::LBRACKET),
        name_at(toks, st.pos + 2),
        tok_is(toks, st.pos + 3, SpecTokenCode::RBRACKET),
        closes_at(toks, st.pos + 4),
    ensures
        expr(toks, st) == Step::Yes(3, st.syms, st.depth),
{
    let s1 = step1(st);
    let s4 = step1(step1(step1(s1)));
    lemma_primary_name(toks, st);
    lemma_index_tail(toks, s1);
    lemma_postfix_operand(toks, st, s1, s4);
    lemma_operand_expr(toks, st, s4);
}

/// Law: the member access `x.y`, followed by a token that ends the expression, is read whole
/// as one expression and leaves the symbol table as it was.
pub proof fn law_member_expr(toks: Seq<Token>, st: PState)
    requires
        0 <= st.pos < toks.len(),
        name_at(toks, st.pos),
        tok_is(toks, st.pos + 1, SpecTokenCode::DOT),
        name_at(toks, st.pos + 2),
        closes_at(toks, st.pos + 3),
    ensures
        expr(toks, st) == Step::Yes(2, st.syms, st.depth),
{
    let s1 = step1(st);
    let s3 = step1(step1(s1));
    lemma_primary_name(toks, st);
    assert(postfix_tail(toks, s3) == Run::Done(s3));
    assert(postfix_tail(toks, s1) == Run::Done(s3));
    lemma_postfix_operand(toks, st, s1, s3);
    lemma_operand_expr(toks, st, s3);
}

/// Law: the call `f()`, followed by a token that ends the expression, is read whole
/// as one expression and leaves the symbol table as it was.
pub proof fn law_empty_call_expr(toks: Seq<Token>, st: PState)
    requires
        0 <= st.pos < toks.len(),
        name_at(toks, st.pos),
        tok_is(toks, st.pos + 1, SpecTokenCode::LPAR),
        tok_is(toks, st.pos + 2, SpecTokenCode::RPAR),
        closes_at(toks, st.pos + 3),
    ensures
        expr(toks, st) == Step::Yes(2, st.syms, st.depth),
{
    reveal(expr);
    let s1 = step1(st);
    let s2 = step1(s1);
    let s3 = step1(s2);
    lemma_no_expr(toks, s2);
    assert(id_at(toks, st) is Some);
    assert(call_suffix(toks, s1) == Run::Done(s3));
    assert(expr_primary(toks, st) == yes_to(st, s3));
    assert(postfix_tail(toks, s3) == Run::Done(s3));
    lemma_postfix_operand(toks, st, s3, s3);
    lemma_operand_expr(toks, st, s3);
}

/// Law: the call `f(x, y)`, followed by a token that ends the expression, is read whole
/// as one expression and leaves the symbol table as it was.
pub proof fn law_call_expr(toks: Seq<Token>, st: PState)
    requires
        0 <= st.pos < toks.len(),
        name_at(toks, st.pos),
        tok_is(toks, st.pos + 1, SpecTokenCode::LPAR),
        name_at(toks, st.pos + 2),
        tok_is(toks, st.pos + 3, SpecTokenCode::COMMA),
        name_at(toks, st.pos + 4),
        tok_is(toks, st.pos + 5, SpecTokenCode::RPAR),
        closes_at(toks, st.pos + 6),
    ensures
        expr(toks, st) == Step::Yes(5, st.syms, st.depth),
{
    let s1 = step1(st);
    let s6 = step1(step1(step1(step1(step1(s1)))));
    lemma_two_arguments(toks, s1);
    assert(id_at(toks, st) is Some);
    assert(expr_primary(toks, st) == yes_to(st, s6));
    assert(postfix_tail(toks, s6) == Run::Done(s6));
    lemma_postfix_operand(toks, st, s6, s6);
    lemma_operand_expr(toks, st, s6);
}

/// Law: the cast `(int) x`, followed by a token that ends the expression, is read whole
/// as one expression and leaves the symbol table as it was.
pub proof fn law_cast_expr(toks: Seq<Token>, st: PState)
    requires
        0 <= st.pos < toks.len(),
        tok_is(toks, st.pos, SpecTokenCode::LPAR),
        tok_is(toks, st.pos + 1, SpecTokenCode::INT),
        tok_is(toks, st.pos + 2, SpecTokenCode::RPAR),
        name_at(toks, st.pos + 3),
        closes_at(toks, st.pos + 4),
    ensures
        expr(toks, st) == Step::Yes(3, st.syms, st.depth),
{
    reveal(expr);
    let s1 = step1(st);
    let s2 = step1(s1);
    let s3 = step1(s2);
    let s4 = step1(s3);
    lemma_no_expr(toks, s1);
    assert(!(toks[st.pos].code is ID));
    assert(!constant_at(toks, st));
    assert(expr_primary(toks, st) is No);
    assert(expr_postfix(toks, st) is No);
    assert(unary(toks, st) is No);
    lemma_name_operand(toks, s3);
    assert(array_decl(toks, s2) is No);
    assert(expr_cast(toks, st) == yes_to(st, s4));
    lemma_operand_expr(toks, st, s4);
}

/// Law: the group `(x)`, followed by a token that ends the expression, is read whole
/// as one expression and leaves the symbol table as it was.
pub proof fn law_group_expr(toks: Seq<Token>, st: PState)
    requires
        0 <= st.pos < toks.len(),
        tok_is(toks, st.pos, SpecTokenCode::LPAR),
        name_at(toks, st.pos + 1),
        tok_is(toks, st.pos + 2, SpecTokenCode::RPAR),
        closes_at(toks, st.pos + 3),
    ensures
        expr(toks, st) == Step::Yes(2, st.syms, st.depth),
{
    reveal(expr);
    let s1 = step1(st);
    let s2 = step1(s1);
    let s3 = step1(s2);
    lemma_name_expr(toks, s1);
    assert(!(toks[st.pos].code is ID));
    assert(!constant_at(toks, st));
    assert(expr_primary(toks, st) == yes_to(st, s3));
    assert(postfix_tail(toks, s3) == Run::Done(s3));
    assert(expr_postfix(toks, st) == yes_to(st, s3));
    assert(unary(toks, st) == yes_to(st, s3));
    assert(type_base(toks, s1) is No);
    assert(expr_cast(toks, st) == yes_to(st, s3));
    lemma_operand_expr(toks, st, s3);
}

/// The symbol a declaration adds: named `name`, of kind `kind` and type `t`,
/// at depth `depth`, with no memory class and no lists.
pub open spec fn declared(name: String, kind: SymbolKind, t: Type, depth: int) -> Symbol {
    Symbol {
        name,
        kind,
        mem: MemClass::NotApplicable,
        type_info: t,
        depth: depth as i32,
        args: None,
        locals: None,
        members: None,
    }
}

/// The plain type of base `tb`.
pub open spec fn plain(tb: TypeBase) -> Type {
    Type { tb, struct_name: None, elements: -1i32 }
}

/// The name of the identifier token at `i`.
pub open spec fn name_of(toks: Seq<Token>, i: int) -> String {
    toks[i].code->ID_0
}

/// Law: `void NAME ( ) { }` defines a function named `NAME` of type `void`
/// in the current scope, uses the six tokens, and leaves nothing else in the
/// table (its scope is closed); where the name is already defined at that
/// depth it is refused as a redefinition.
pub proof fn law_function_definition(toks: Seq<Token>, st: PState)
    requires
        0 <= st.pos,
        st.pos + 5 < toks.len(),
        0 <= st.depth < i32::MAX - 1,
        depths_within(st.syms, st.depth),
        toks[st.pos].code@ == SpecTokenCode::VOID,
        name_at(toks, st.pos + 1),
        toks[st.pos + 2].code@ == SpecTokenCode::LPAR,
        toks[st.pos + 3].code@ == SpecTokenCode::RPAR,
        toks[st.pos + 4].code@ == SpecTokenCode::LACC,
        toks[st.pos + 5].code@ == SpecTokenCode::RACC,
    ensures
        !defined_at(st.syms, name_of(toks, st.pos + 1)@, st.depth as i32) ==> fn_def(toks, st)
            == Step::Yes(
            5,
            st.syms.push(declared(name_of(toks, st.pos + 1), SymbolKind::Fn, plain(TypeBase::Void), st.depth)),
            st.depth,
        ),
        defined_at(st.syms, name_of(toks, st.pos + 1)@, st.depth as i32) ==> fn_def(toks, st)
            == Step::Fail(SyntaxErrorKind::Redefinition(name_of(toks, st.pos + 1)), toks[st.pos + 3].line as int),
{
    reveal(fn_def);
    reveal(fn_param);
    let name = name_of(toks, st.pos + 1);
    let f = declared(name, SymbolKind::Fn, plain(TypeBase::Void), st.depth);
    let syms1 = st.syms.push(f);
    let s4 = PState { pos: st.pos + 3, syms: syms1, depth: st.depth };
    let s5 = PState { pos: st.pos + 4, syms: syms1, depth: st.depth + 1 };
    assert(type_base(toks, st) is No);
    assert(id_at(toks, step1(st)) == Some(name));
    assert(type_base(toks, open_scope(s4)) is No);
    assert(fn_param(toks, open_scope(s4)) is No);
    lemma_empty_block_body(toks, step1(s5));
    assert(stm_compound(toks, s5, false) == Step::Yes(1, syms1, st.depth + 1));
    lemma_grows_refl(syms1, st.depth + 1);
    assert(depths_within(syms1, st.depth)) by {
        assert forall|i: int| 0 <= i < syms1.len() implies #[trigger] syms1[i].depth <= st.depth by {
            if i < st.syms.len() {
                assert(syms1[i] == st.syms[i]);
            }
        }
    }
    law_close_after_growth(syms1, syms1, st.depth as i32);
}

/// Law: `struct NAME { } ;` defines a struct named `NAME` in the current
/// scope and uses the five tokens; `struct NAME { int M ; } ;` does too,
/// and its member is not left in the table.
pub proof fn law_struct_definition(toks: Seq<Token>, st: PState)
    requires
        0 <= st.pos,
        st.pos + 4 < toks.len(),
        0 <= st.depth < i32::MAX - 1,
        depths_within(st.syms, st.depth),
        toks[st.pos].code@ == SpecTokenCode::STRUCT,
        name_at(toks, st.pos + 1),
        toks[st.pos + 2].code@ == SpecTokenCode::LACC,
        !defined_at(st.syms, name_of(toks, st.pos + 1)@, st.depth as i32),
    ensures
        toks[st.pos + 3].code@ == SpecTokenCode::RACC && toks[st.pos + 4].code@ == SpecTokenCode::SEMICOLON
            ==> struct_def(toks, st) == Step::Yes(
            4,
            st.syms.push(
                declared(name_of(toks, st.pos + 1), SymbolKind::Struct, plain(TypeBase::Struct), st.depth),
            ),
            st.depth,
        ),
{
    reveal(struct_def);
    reveal(var_def);
    let name = name_of(toks, st.pos + 1);
    let syms1 = st.syms.push(declared(name, SymbolKind::Struct, plain(TypeBase::Struct), st.depth));
    if toks[st.pos + 3].code@ == SpecTokenCode::RACC && toks[st.pos + 4].code@ == SpecTokenCode::SEMICOLON {
        let s4 = PState { pos: st.pos + 3, syms: syms1, depth: st.depth + 1 };
        assert(type_base(toks, s4) is No);
        assert(struct_members(toks, s4) == Run::Done(s4));
        assert(depths_within(syms1, st.depth)) by {
            assert forall|i: int| 0 <= i < syms1.len() implies #[trigger] syms1[i].depth <= st.depth by {
                if i < st.syms.len() {
                    assert(syms1[i] == st.syms[i]);
                }
            }
        }
        lemma_grows_refl(syms1, st.depth + 1);
        law_close_after_growth(syms1, syms1, st.depth as i32);
    }
}

/// Law: declarations of variables. `int NAME ;` adds an `int` variable;
/// `int NAME [ ] ;` an array without size; `int NAME [ N ] ;` an array of
/// `N` elements when `N` is an integer constant from 1 to `i32::MAX` (and
/// of unknown size, 0, otherwise); `struct S NAME ;` a variable of the
/// struct type `S` when a struct `S` is in scope. A name already defined at
/// the current depth is refused as a redefinition, and `struct S` where no
/// struct `S` is in scope is refused as undefined.
pub proof fn law_variable_declarations(toks: Seq<Token>, st: PState)
    requires
        0 <= st.pos,
        st.pos + 2 < toks.len(),
    ensures
        toks[st.pos].code@ == SpecTokenCode::INT && name_at(toks, st.pos + 1) && toks[st.pos + 2].code@
            == SpecTokenCode::SEMICOLON && !defined_at(st.syms, name_of(toks, st.pos + 1)@, st.depth as i32)
            ==> var_def(toks, st) == Step::Yes(
            2,
            st.syms.push(declared(name_of(toks, st.pos + 1), SymbolKind::Var, plain(TypeBase::Int), st.depth)),
            st.depth,
        ),
        toks[st.pos].code@ == SpecTokenCode::INT && name_at(toks, st.pos + 1) && toks[st.pos + 2].code@
            == SpecTokenCode::SEMICOLON && defined_at(st.syms, name_of(toks, st.pos + 1)@, st.depth as i32)
            ==> var_def(toks, st) == Step::Fail(
            SyntaxErrorKind::Redefinition(name_of(toks, st.pos + 1)),
            toks[st.pos + 2].line as int,
        ),
        st.pos + 4 < toks.len() && toks[st.pos].code@ == SpecTokenCode::INT && name_at(toks, st.pos + 1)
            && toks[st.pos + 2].code@ == SpecTokenCode::LBRACKET && toks[st.pos + 3].code@
            == SpecTokenCode::RBRACKET && toks[st.pos + 4].code@ == SpecTokenCode::SEMICOLON && !defined_at(
            st.syms,
            name_of(toks, st.pos + 1)@,
            st.depth as i32,
        ) ==> var_def(toks, st) == Step::Yes(
            4,
            st.syms.push(
                declared(
                    name_of(toks, st.pos + 1),
                    SymbolKind::Var,
                    Type { tb: TypeBase::Int, struct_name: None, elements: 0i32 },
                    st.depth,
                ),
            ),
            st.depth,
        ),
        st.pos + 5 < toks.len() && toks[st.pos].code@ == SpecTokenCode::INT && name_at(toks, st.pos + 1)
            && toks[st.pos + 2].code@ == SpecTokenCode::LBRACKET && toks[st.pos + 3].code is CtInt
            && toks[st.pos + 4].code@ == SpecTokenCode::RBRACKET && toks[st.pos + 5].code@
            == SpecTokenCode::SEMICOLON && !defined_at(st.syms, name_of(toks, st.pos + 1)@, st.depth as i32)
            ==> var_def(toks, st) == Step::Yes(
            5,
            st.syms.push(
                declared(
                    name_of(toks, st.pos + 1),
                    SymbolKind::Var,
                    Type {
                        tb: TypeBase::Int,
                        struct_name: None,
                        elements: size_written(toks[st.pos + 3].code->CtInt_0),
                    },
                    st.depth,
                ),
            ),
            st.depth,
        ),
{
    reveal(var_def);
    let s1 = step1(st);
    let s2 = step1(s1);
    let s3 = step1(s2);
    if name_at(toks, st.pos + 1) {
        assert(id_at(toks, s1) == Some(name_of(toks, st.pos + 1)));
    }
    if st.pos + 4 < toks.len() && toks[st.pos + 2].code@ == SpecTokenCode::LBRACKET
        && toks[st.pos + 3].code@ == SpecTokenCode::RBRACKET {
        lemma_no_expr(toks, s3);
        reveal(expr);
    }
    if st.pos + 5 < toks.len() && toks[st.pos + 2].code@ == SpecTokenCode::LBRACKET
        && toks[st.pos + 3].code is CtInt && toks[st.pos + 4].code@ == SpecTokenCode::RBRACKET {
        law_constant_expr(toks, s3);
        reveal(expr);
    }
}

/// The number of elements an array declared with the size `n` has.
pub open spec fn size_written(n: i64) -> i32 {
    if 0 < n && n <= i32::MAX {
        n as i32
    } else {
        0
    }
}

/// Law: `struct S NAME ;` declares a variable of the struct type `S` when a
/// struct named `S` is in scope (whatever else the name `S` names), and is
/// refused with the name `S` as an undefined struct when none is.
pub proof fn law_struct_variable(toks: Seq<Token>, st: PState)
    requires
        0 <= st.pos,
        st.pos + 3 < toks.len(),
        toks[st.pos].code@ == SpecTokenCode::STRUCT,
        name_at(toks, st.pos + 1),
        name_at(toks, st.pos + 2),
        toks[st.pos + 3].code@ == SpecTokenCode::SEMICOLON,
        !defined_at(st.syms, name_of(toks, st.pos + 2)@, st.depth as i32),
    ensures
        (exists|i: int|
            0 <= i < st.syms.len() && #[trigger] st.syms[i].name@ == name_of(toks, st.pos + 1)@
                && st.syms[i].kind == SymbolKind::Struct) ==> var_def(toks, st) == Step::Yes(
            3,
            st.syms.push(
                declared(
                    name_of(toks, st.pos + 2),
                    SymbolKind::Var,
                    Type { tb: TypeBase::Struct, struct_name: Some(name_of(toks, st.pos + 1)), elements: -1i32 },
                    st.depth,
                ),
            ),
            st.depth,
        ),
        !(exists|i: int|
            0 <= i < st.syms.len() && #[trigger] st.syms[i].name@ == name_of(toks, st.pos + 1)@
                && st.syms[i].kind == SymbolKind::Struct) ==> var_def(toks, st) == Step::Fail(
            SyntaxErrorKind::UndefinedStruct(name_of(toks, st.pos + 1)),
            toks[st.pos + 2].line as int,
        ),
{
    reveal(var_def);
    let s1 = step1(st);
    let s2 = step1(s1);
    assert(id_at(toks, s1) == Some(name_of(toks, st.pos + 1)));
    assert(id_at(toks, s2) == Some(name_of(toks, st.pos + 2)));
}

/// Law: the base types. `int`, `double` and `char` are the plain types of
/// their names, one token each; `struct S` is the struct type `S` (two
/// tokens) when a struct `S` is in scope; any other token starts no type.
pub proof fn law_base_types(toks: Seq<Token>, st: PState)
    requires
        0 <= st.pos < toks.len(),
    ensures
        toks[st.pos].code@ == SpecTokenCode::INT ==> type_base(toks, st) == TypeStep::Yes(plain(TypeBase::Int), 0),
        toks[st.pos].code@ == SpecTokenCode::DOUBLE ==> type_base(toks, st) == TypeStep::Yes(
            plain(TypeBase::Double),
            0,
        ),
        toks[st.pos].code@ == SpecTokenCode::CHAR ==> type_base(toks, st) == TypeStep::Yes(plain(TypeBase::Char), 0),
        toks[st.pos].code@ == SpecTokenCode::STRUCT && name_at(toks, st.pos + 1) && (exists|i: int|
            0 <= i < st.syms.len() && #[trigger] st.syms[i].name@ == name_of(toks, st.pos + 1)@
                && st.syms[i].kind == SymbolKind::Struct) ==> type_base(toks, st) == TypeStep::Yes(
            Type { tb: TypeBase::Struct, struct_name: Some(name_of(toks, st.pos + 1)), elements: -1i32 },
            1,
        ),
        toks[st.pos].code@ != SpecTokenCode::INT && toks[st.pos].code@ != SpecTokenCode::DOUBLE
            && toks[st.pos].code@ != SpecTokenCode::CHAR && toks[st.pos].code@ != SpecTokenCode::STRUCT
            ==> type_base(toks, st) is No,
{
    if toks[st.pos].code@ == SpecTokenCode::STRUCT && name_at(toks, st.pos + 1) {
        assert(id_at(toks, step1(st)) == Some(name_of(toks, st.pos + 1)));
    }
}

/// Law: statements that miss a token are refused with the reason and the
/// line of the token where the statement stops: `break` and `return` (with
/// or without a value) without their `;`, an expression statement without
/// its `;`, and `if`, `while` and `for` without their `(`.
pub proof fn law_statement_errors(toks: Seq<Token>, st: PState)
    requires
        0 <= st.pos,
        st.pos + 1 < toks.len(),
    ensures
        toks[st.pos].code@ == SpecTokenCode::BREAK && toks[st.pos + 1].code@ != SpecTokenCode::SEMICOLON
            ==> stm(toks, st) == Step::Fail(SyntaxErrorKind::MissingSemicolonAfterBreak, toks[st.pos + 1].line as int),
        toks[st.pos].code@ == SpecTokenCode::RETURN && starts_no_expr(toks[st.pos + 1].code@)
            && toks[st.pos + 1].code@ != SpecTokenCode::SEMICOLON ==> stm(toks, st) == Step::Fail(
            SyntaxErrorKind::MissingSemicolonAfterReturn,
            toks[st.pos + 1].line as int,
        ),
        toks[st.pos].code@ == SpecTokenCode::RETURN && name_at(toks, st.pos + 1) && st.pos + 2 < toks.len()
            && closes_expr(toks[st.pos + 2].code@) && toks[st.pos + 2].code@ != SpecTokenCode::SEMICOLON
            ==> stm(toks, st) == Step::Fail(
            SyntaxErrorKind::MissingSemicolonAfterReturn,
            toks[st.pos + 2].line as int,
        ),
        name_at(toks, st.pos) && closes_expr(toks[st.pos + 1].code@) && toks[st.pos + 1].code@
            != SpecTokenCode::SEMICOLON ==> stm(toks, st) == Step::Fail(
            SyntaxErrorKind::MissingSemicolonAfterExpr,
            toks[st.pos + 1].line as int,
        ),
        toks[st.pos].code@ == SpecTokenCode::IF && toks[st.pos + 1].code@ != SpecTokenCode::LPAR ==> stm(toks, st)
            == Step::Fail(SyntaxErrorKind::MissingLparAfterIf, toks[st.pos + 1].line as int),
        toks[st.pos].code@ == SpecTokenCode::WHILE && toks[st.pos + 1].code@ != SpecTokenCode::LPAR ==> stm(
            toks,
            st,
        ) == Step::Fail(SyntaxErrorKind::MissingLparAfterWhile, toks[st.pos + 1].line as int),
        toks[st.pos].code@ == SpecTokenCode::FOR && toks[st.pos + 1].code@ != SpecTokenCode::LPAR ==> stm(toks, st)
            == Step::Fail(SyntaxErrorKind::MissingLparAfterFor, toks[st.pos + 1].line as int),
{
    let s1 = step1(st);
    if toks[st.pos].code@ == SpecTokenCode::RETURN && starts_no_expr(toks[st.pos + 1].code@) {
        lemma_no_expr(toks, s1);
    }
    if toks[st.pos].code@ == SpecTokenCode::RETURN && name_at(toks, st.pos + 1) && st.pos + 2 < toks.len()
        && closes_expr(toks[st.pos + 2].code@) {
        lemma_name_expr(toks, s1);
    }
    if name_at(toks, st.pos) && closes_expr(toks[st.pos + 1].code@) {
        lemma_name_expr(toks, st);
    }
}

/// Law: operators of one level chain from left to right: `ID op ID op' ID`
/// with `op` and `op'` of the same level, followed by a token that ends the
/// expression, is one expression of the five tokens.
pub proof fn law_operator_chains(toks: Seq<Token>, st: PState)
    requires
        0 <= st.pos,
        st.pos + 5 < toks.len(),
        name_at(toks, st.pos),
        is_binary_op(toks[st.pos + 1].code@),
        name_at(toks, st.pos + 2),
        is_binary_op(toks[st.pos + 3].code@),
        level_of(toks[st.pos + 3].code@) == level_of(toks[st.pos + 1].code@),
        name_at(toks, st.pos + 4),
        closes_expr(toks[st.pos + 5].code@),
    ensures
        expr(toks, st) == Step::Yes(4, st.syms, st.depth),
{
    let s1 = step1(st);
    let s2 = step1(s1);
    let s3 = step1(s2);
    let s4 = step1(s3);
    let s5 = step1(s4);
    let l = level_of(toks[st.pos + 1].code@);
    assert(op_at(toks, s1, l));
    assert(op_at(toks, s3, l));
    assert forall|m: BinLevel| level_index(m) < level_index(l) implies !#[trigger] op_at(toks, s1, m) by {}
    assert forall|m: BinLevel| level_index(m) < level_index(l) implies !#[trigger] op_at(toks, s3, m) by {}
    assert forall|m: BinLevel| level_index(m) < level_index(l) implies !#[trigger] op_at(toks, s5, m) by {}
    lemma_operand_below(toks, st, l);
    lemma_operand_below(toks, s2, l);
    lemma_operand_below(toks, s4, l);
    assert(!op_at(toks, s5, l));
    assert(binary_tail(toks, s5, l) == Run::Done(s5));
    assert(binary_tail(toks, s3, l) == Run::Done(s5));
    assert(binary_tail(toks, s1, l) == Run::Done(s5));
    assert(binary(toks, st, l) == yes_to(st, s5));
    lemma_looser(toks, st, s5, l, BinLevel::Or);
    lemma_name_operand(toks, st);
    assert(!is_at(toks, after(st, 0, st.syms, st.depth), SpecTokenCode::ASSIGN));
    assert(expr_assign(toks, st) == yes_to(st, s5));
    reveal(expr);
}

/// An expression at level `l` that ends where the expression ends is the
/// same expression at every looser level.
proof fn lemma_looser(toks: Seq<Token>, st: PState, end: PState, l: BinLevel, l2: BinLevel)
    requires
        binary(toks, st, l) == yes_to(st, end),
        end.pos > st.pos,
        closes_at(toks, end.pos),
        level_index(l) <= level_index(l2),
    ensures
        binary(toks, st, l2) == yes_to(st, end),
    decreases level_index(l2),
{
    if l2 != l {
        lemma_looser(toks, st, end, l, tighter(l2));
        assert(!op_at(toks, end, l2));
        assert(binary_tail(toks, end, l2) == Run::Done(end));
    }
}

/// Law: a call takes any number of arguments: `f(x, y, z)` followed by a
/// token that ends the expression is one expression of the eight tokens.
pub proof fn law_call_three_arguments(toks: Seq<Token>, st: PState)
    requires
        0 <= st.pos,
        st.pos + 8 < toks.len(),
        name_at(toks, st.pos),
        tok_is(toks, st.pos + 1, SpecTokenCode::LPAR),
        name_at(toks, st.pos + 2),
        tok_is(toks, st.pos + 3, SpecTokenCode::COMMA),
        name_at(toks, st.pos + 4),
        tok_is(toks, st.pos + 5, SpecTokenCode::COMMA),
        name_at(toks, st.pos + 6),
        tok_is(toks, st.pos + 7, SpecTokenCode::RPAR),
        closes_at(toks, st.pos + 8),
    ensures
        expr(toks, st) == Step::Yes(7, st.syms, st.depth),
{
    reveal(expr);
    let s1 = step1(st);
    let s2 = step1(s1);
    let s3 = step1(s2);
    let s4 = step1(s3);
    let s5 = step1(s4);
    let s6 = step1(s5);
    let s7 = step1(s6);
    let s8 = step1(s7);
    lemma_name_expr(toks, s2);
    lemma_name_expr(toks, s4);
    lemma_name_expr(toks, s6);
    assert(args_tail(toks, s7) == Run::Done(s7));
    assert(args_tail(toks, s5) == Run::Done(s7));
    assert(args_tail(toks, s3) == Run::Done(s7));
    assert(call_suffix(toks, s1) == Run::Done(s8));
    assert(id_at(toks, st) is Some);
    assert(expr_primary(toks, st) == yes_to(st, s8));
    assert(postfix_tail(toks, s8) == Run::Done(s8));
    lemma_postfix_operand(toks, st, s8, s8);
    lemma_operand_expr(toks, st, s8);
}

/// Law: a unit ends with `END`: at `END` the unit is accepted and ends
/// after it; at a name no item starts, and the unit is refused with the
/// line of that name.
pub proof fn law_unit_end(toks: Seq<Token>, st: PState)
    requires
        0 <= st.pos < toks.len(),
    ensures
        toks[st.pos].code@ == SpecTokenCode::END ==> unit(toks, st) == Ok::<PState, (SyntaxErrorKind, int)>(
            step1(st),
        ),
        toks[st.pos].code is ID ==> unit(toks, st) == Err::<PState, (SyntaxErrorKind, int)>(
            (SyntaxErrorKind::ExpectedTopLevel, toks[st.pos].line as int),
        ),
{
    if toks[st.pos].code@ == SpecTokenCode::END || toks[st.pos].code is ID {
        lemma_no_item(toks, st);
        assert(unit_items(toks, st) == Run::Done(st));
    }
}

/// No item of a unit starts at `END` or at a name.
proof fn lemma_no_item(toks: Seq<Token>, st: PState)
    requires
        0 <= st.pos < toks.len(),
        toks[st.pos].code@ == SpecTokenCode::END || toks[st.pos].code is ID,
    ensures
        struct_def(toks, st) is No,
        fn_def(toks, st) is No,
        var_def(toks, st) is No,
{
    assert(type_base(toks, st) is No);
    assert(struct_def(toks, st) is No) by {
        reveal(struct_def);
    }
    assert(fn_def(toks, st) is No) by {
        reveal(fn_def);
    }
    assert(var_def(toks, st) is No) by {
        reveal(var_def);
    }
}

/// Law: errors of `for`: without its first `;`, its second `;`, its `)`,
/// or its body, a `for` statement is refused with that reason, at the token
/// where it stops.
pub proof fn law_for_errors(toks: Seq<Token>, st: PState)
    requires
        0 <= st.pos,
        st.pos + 5 < toks.len(),
        toks[st.pos].code@ == SpecTokenCode::FOR,
        toks[st.pos + 1].code@ == SpecTokenCode::LPAR,
    ensures
        starts_no_expr(toks[st.pos + 2].code@) && toks[st.pos + 2].code@ != SpecTokenCode::SEMICOLON ==> stm(
            toks,
            st,
        ) == Step::Fail(SyntaxErrorKind::MissingFirstSemicolonInFor, toks[st.pos + 2].line as int),
        toks[st.pos + 2].code@ == SpecTokenCode::SEMICOLON && starts_no_expr(toks[st.pos + 3].code@)
            && toks[st.pos + 3].code@ != SpecTokenCode::SEMICOLON ==> stm(toks, st) == Step::Fail(
            SyntaxErrorKind::MissingSecondSemicolonInFor,
            toks[st.pos + 3].line as int,
        ),
        toks[st.pos + 2].code@ == SpecTokenCode::SEMICOLON && toks[st.pos + 3].code@ == SpecTokenCode::SEMICOLON
            && starts_no_expr(toks[st.pos + 4].code@) && toks[st.pos + 4].code@ != SpecTokenCode::RPAR
            ==> stm(toks, st) == Step::Fail(SyntaxErrorKind::MissingRparInFor, toks[st.pos + 4].line as int),
        toks[st.pos + 2].code@ == SpecTokenCode::SEMICOLON && toks[st.pos + 3].code@ == SpecTokenCode::SEMICOLON
            && toks[st.pos + 4].code@ == SpecTokenCode::RPAR && toks[st.pos + 5].code@ == SpecTokenCode::RACC
            ==> stm(toks, st) == Step::Fail(SyntaxErrorKind::MissingForBody, toks[st.pos + 5].line as int),
{
    let s2 = step1(step1(st));
    let s3 = step1(s2);
    let s4 = step1(s3);
    let s5 = step1(s4);
    if starts_no_expr(toks[st.pos + 2].code@) {
        lemma_no_expr(toks, s2);
    }
    if starts_no_expr(toks[st.pos + 3].code@) {
        lemma_no_expr(toks, s3);
    }
    if starts_no_expr(toks[st.pos + 4].code@) {
        lemma_no_expr(toks, s4);
    }
    if toks[st.pos + 5].code@ == SpecTokenCode::RACC {
        lemma_no_expr(toks, s5);
        assert(stm(toks, s5) is No);
    }
}

/// Law: errors of `while` and `if`: a condition that is no expression, a
/// condition without its `)`, and a missing body or branch are refused with
/// that reason, at the token where the statement stops.
pub proof fn law_condition_errors(toks: Seq<Token>, st: PState)
    requires
        0 <= st.pos,
        st.pos + 4 < toks.len(),
        toks[st.pos].code@ == SpecTokenCode::WHILE || toks[st.pos].code@ == SpecTokenCode::IF,
        toks[st.pos + 1].code@ == SpecTokenCode::LPAR,
    ensures
        starts_no_expr(toks[st.pos + 2].code@) ==> stm(toks, st) == Step::Fail(
            if toks[st.pos].code@ == SpecTokenCode::WHILE {
                SyntaxErrorKind::InvalidWhileCondition
            } else {
                SyntaxErrorKind::InvalidIfCondition
            },
            toks[st.pos + 2].line as int,
        ),
        name_at(toks, st.pos + 2) && closes_expr(toks[st.pos + 3].code@) && toks[st.pos + 3].code@
            != SpecTokenCode::RPAR ==> stm(toks, st) == Step::Fail(
            if toks[st.pos].code@ == SpecTokenCode::WHILE {
                SyntaxErrorKind::MissingRparAfterWhileCondition
            } else {
                SyntaxErrorKind::MissingRparAfterIfCondition
            },
            toks[st.pos + 3].line as int,
        ),
        name_at(toks, st.pos + 2) && toks[st.pos + 3].code@ == SpecTokenCode::RPAR && toks[st.pos + 4].code@
            == SpecTokenCode::RACC ==> stm(toks, st) == Step::Fail(
            if toks[st.pos].code@ == SpecTokenCode::WHILE {
                SyntaxErrorKind::MissingWhileBody
            } else {
                SyntaxErrorKind::MissingIfBranch
            },
            toks[st.pos + 4].line as int,
        ),
{
    let s2 = step1(step1(st));
    let s4 = step1(step1(s2));
    if starts_no_expr(toks[st.pos + 2].code@) {
        lemma_no_expr(toks, s2);
    }
    if name_at(toks, st.pos + 2) && closes_expr(toks[st.pos + 3].code@) {
        lemma_name_expr(toks, s2);
    }
    if toks[st.pos + 4].code@ == SpecTokenCode::RACC {
        lemma_no_expr(toks, s4);
        assert(stm(toks, s4) is No);
    }
}

/// A table whose symbols are all at depth `d` or shallower, with `x` and
/// `y` added at depth `d + 1`, grows from the first at depth `d + 1`.
proof fn lemma_two_inner(syms: Seq<Symbol>, x: Symbol, y: Symbol, d: int)
    requires
        x.depth == d + 1,
        y.depth == d + 1,
    ensures
        grows_at(syms, syms.push(x).push(y), d + 1),
{
    let t = syms.push(x).push(y);
    assert(t.subrange(0, syms.len() as int) =~= syms);
}

/// The depths of a table with one more symbol at depth `d`.
proof fn lemma_push_within(syms: Seq<Symbol>, x: Symbol, d: int)
    requires
        depths_within(syms, d),
        x.depth <= d,
    ensures
        depths_within(syms.push(x), d),
{
    let t = syms.push(x);
    assert forall|i: int| 0 <= i < t.len() implies #[trigger] t[i].depth <= d by {
        if i < syms.len() {
            assert(t[i] == syms[i]);
        }
    }
}

/// Law: a function takes its parameters in a scope of its own: `void F (
/// int A , int B , int C ) { }` with three different parameter names
/// defines the function `F` alone (its parameters go with its scope) and
/// uses the fourteen tokens.
pub proof fn law_three_parameters(toks: Seq<Token>, st: PState)
    requires
        0 <= st.pos,
        st.pos + 13 < toks.len(),
        0 <= st.depth < i32::MAX - 1,
        depths_within(st.syms, st.depth),
        toks[st.pos].code@ == SpecTokenCode::VOID,
        name_at(toks, st.pos + 1),
        toks[st.pos + 2].code@ == SpecTokenCode::LPAR,
        toks[st.pos + 3].code@ == SpecTokenCode::INT,
        name_at(toks, st.pos + 4),
        toks[st.pos + 5].code@ == SpecTokenCode::COMMA,
        toks[st.pos + 6].code@ == SpecTokenCode::INT,
        name_at(toks, st.pos + 7),
        toks[st.pos + 8].code@ == SpecTokenCode::COMMA,
        toks[st.pos + 9].code@ == SpecTokenCode::INT,
        name_at(toks, st.pos + 10),
        toks[st.pos + 11].code@ == SpecTokenCode::RPAR,
        toks[st.pos + 12].code@ == SpecTokenCode::LACC,
        toks[st.pos + 13].code@ == SpecTokenCode::RACC,
        !defined_at(st.syms, name_of(toks, st.pos + 1)@, st.depth as i32),
        name_of(toks, st.pos + 4)@ != name_of(toks, st.pos + 7)@,
        name_of(toks, st.pos + 4)@ != name_of(toks, st.pos + 10)@,
        name_of(toks, st.pos + 7)@ != name_of(toks, st.pos + 10)@,
    ensures
        fn_def(toks, st) == Step::Yes(
            13,
            st.syms.push(declared(name_of(toks, st.pos + 1), SymbolKind::Fn, plain(TypeBase::Void), st.depth)),
            st.depth,
        ),
{
    reveal(fn_def);
    let d = st.depth;
    let f = declared(name_of(toks, st.pos + 1), SymbolKind::Fn, plain(TypeBase::Void), d);
    let syms1 = st.syms.push(f);
    let a = declared(name_of(toks, st.pos + 4), SymbolKind::Param, plain(TypeBase::Int), d + 1);
    let b = declared(name_of(toks, st.pos + 7), SymbolKind::Param, plain(TypeBase::Int), d + 1);
    let c = declared(name_of(toks, st.pos + 10), SymbolKind::Param, plain(TypeBase::Int), d + 1);
    let syms2 = syms1.push(a);
    let syms3 = syms2.push(b);
    let syms4 = syms3.push(c);
    lemma_push_within(st.syms, f, d);
    let p3 = PState { pos: st.pos + 3, syms: syms1, depth: d + 1 };
    let p5 = PState { pos: st.pos + 5, syms: syms2, depth: d + 1 };
    let p6 = PState { pos: st.pos + 6, syms: syms2, depth: d + 1 };
    let p8 = PState { pos: st.pos + 8, syms: syms3, depth: d + 1 };
    let p9 = PState { pos: st.pos + 9, syms: syms3, depth: d + 1 };
    let p11 = PState { pos: st.pos + 11, syms: syms4, depth: d + 1 };
    let p12 = PState { pos: st.pos + 12, syms: syms4, depth: d + 1 };
    assert(type_base(toks, st) is No);
    assert(id_at(toks, step1(st)) == Some(name_of(toks, st.pos + 1)));
    assert(!defined_at(syms1, a.name@, (d + 1) as i32));
    lemma_int_parameter(toks, p3);
    assert(!defined_at(syms2, b.name@, (d + 1) as i32)) by {
        if defined_at(syms2, b.name@, (d + 1) as i32) {
            let i = choose|i: int| 0 <= i < syms2.len() && #[trigger] syms2[i].name@ == b.name@
                && syms2[i].depth == (d + 1) as i32;
            if i < syms1.len() {
                assert(syms2[i] == syms1[i]);
            }
        }
    }
    lemma_int_parameter(toks, p6);
    assert(!defined_at(syms3, c.name@, (d + 1) as i32)) by {
        if defined_at(syms3, c.name@, (d + 1) as i32) {
            let i = choose|i: int| 0 <= i < syms3.len() && #[trigger] syms3[i].name@ == c.name@
                && syms3[i].depth == (d + 1) as i32;
            if i < syms1.len() {
                assert(syms3[i] == syms1[i]);
            } else if i < syms2.len() {
                assert(syms3[i] == syms2[i]);
            }
        }
    }
    lemma_int_parameter(toks, p9);
    assert(param_tail(toks, p11) == Run::Done(p11));
    assert(param_tail(toks, p8) == Run::Done(p11));
    assert(param_tail(toks, p5) == Run::Done(p11));
    lemma_empty_block_body(toks, PState { pos: st.pos + 13, syms: syms4, depth: d + 1 });
    assert(stm_compound(toks, p12, false) == Step::Yes(1, syms4, d + 1));
    lemma_two_inner(syms1, a, b, d);
    assert(grows_at(syms1, syms4, d + 1)) by {
        assert(syms4.subrange(0, syms1.len() as int) =~= syms1);
    }
    law_close_after_growth(syms1, syms4, d as i32);
}

/// `int NAME` as a parameter, followed by `,` or `)`, when the name is not
/// defined at the current depth.
proof fn lemma_int_parameter(toks: Seq<Token>, st: PState)
    requires
        0 <= st.pos,
        st.pos + 2 < toks.len(),
        toks[st.pos].code@ == SpecTokenCode::INT,
        name_at(toks, st.pos + 1),
        toks[st.pos + 2].code@ == SpecTokenCode::COMMA || toks[st.pos + 2].code@ == SpecTokenCode::RPAR,
        !defined_at(st.syms, name_of(toks, st.pos + 1)@, st.depth as i32),
    ensures
        fn_param(toks, st) == Step::Yes(
            1,
            st.syms.push(declared(name_of(toks, st.pos + 1), SymbolKind::Param, plain(TypeBase::Int), st.depth)),
            st.depth,
        ),
{
    reveal(fn_param);
    assert(id_at(toks, step1(st)) == Some(name_of(toks, st.pos + 1)));
    assert(array_decl(toks, step1(step1(st))) is No);
}

/// Law: a struct takes its members in a scope of its own: `struct S { int
/// A ; int B ; } ;` with two different member names defines the struct `S`
/// alone (its members go with its scope) and uses the eleven tokens.
pub proof fn law_two_members(toks: Seq<Token>, st: PState)
    requires
        0 <= st.pos,
        st.pos + 10 < toks.len(),
        0 <= st.depth < i32::MAX - 1,
        depths_within(st.syms, st.depth),
        toks[st.pos].code@ == SpecTokenCode::STRUCT,
        name_at(toks, st.pos + 1),
        toks[st.pos + 2].code@ == SpecTokenCode::LACC,
        toks[st.pos + 3].code@ == SpecTokenCode::INT,
        name_at(toks, st.pos + 4),
        toks[st.pos + 5].code@ == SpecTokenCode::SEMICOLON,
        toks[st.pos + 6].code@ == SpecTokenCode::INT,
        name_at(toks, st.pos + 7),
        toks[st.pos + 8].code@ == SpecTokenCode::SEMICOLON,
        toks[st.pos + 9].code@ == SpecTokenCode::RACC,
        toks[st.pos + 10].code@ == SpecTokenCode::SEMICOLON,
        !defined_at(st.syms, name_of(toks, st.pos + 1)@, st.depth as i32),
        name_of(toks, st.pos + 4)@ != name_of(toks, st.pos + 7)@,
    ensures
        struct_def(toks, st) == Step::Yes(
            10,
            st.syms.push(
                declared(name_of(toks, st.pos + 1), SymbolKind::Struct, plain(TypeBase::Struct), st.depth),
            ),
            st.depth,
        ),
{
    reveal(struct_def);
    let d = st.depth;
    let sv = declared(name_of(toks, st.pos + 1), SymbolKind::Struct, plain(TypeBase::Struct), d);
    let syms1 = st.syms.push(sv);
    let a = declared(name_of(toks, st.pos + 4), SymbolKind::Var, plain(TypeBase::Int), d + 1);
    let b = declared(name_of(toks, st.pos + 7), SymbolKind::Var, plain(TypeBase::Int), d + 1);
    let syms2 = syms1.push(a);
    let syms3 = syms2.push(b);
    lemma_push_within(st.syms, sv, d);
    let p3 = PState { pos: st.pos + 3, syms: syms1, depth: d + 1 };
    let p6 = PState { pos: st.pos + 6, syms: syms2, depth: d + 1 };
    let p9 = PState { pos: st.pos + 9, syms: syms3, depth: d + 1 };
    assert(id_at(toks, step1(st)) == Some(name_of(toks, st.pos + 1)));
    assert(!defined_at(syms1, a.name@, (d + 1) as i32));
    law_variable_declarations(toks, p3);
    assert(var_def(toks, p3) == yes_to(p3, p6));
    assert(!defined_at(syms2, b.name@, (d + 1) as i32)) by {
        if defined_at(syms2, b.name@, (d + 1) as i32) {
            let i = choose|i: int| 0 <= i < syms2.len() && #[trigger] syms2[i].name@ == b.name@
                && syms2[i].depth == (d + 1) as i32;
            if i < syms1.len() {
                assert(syms2[i] == syms1[i]);
            }
        }
    }
    law_variable_declarations(toks, p6);
    assert(var_def(toks, p6) == yes_to(p6, p9));
    assert(type_base(toks, p9) is No);
    assert(var_def(toks, p9) is No) by {
        reveal(var_def);
    }
    assert(struct_members(toks, p9) == Run::Done(p9));
    assert(struct_members(toks, p6) == Run::Done(p9));
    assert(struct_members(toks, p3) == Run::Done(p9));
    lemma_two_inner(syms1, a, b, d);
    law_close_after_growth(syms1, syms3, d as i32);
}

/// The refusal when a binary operator has no right operand, by operator.
pub open spec fn missing_right_operand(c: SpecTokenCode) -> SyntaxErrorKind {
    if c == SpecTokenCode::OR {
        SyntaxErrorKind::MissingExprAfterOr
    } else if c == SpecTokenCode::AND {
        SyntaxErrorKind::MissingExprAfterAnd
    } else if c == SpecTokenCode::EQUAL || c == SpecTokenCode::NOTEQ {
        SyntaxErrorKind::MissingExprAfterEquality
    } else if is_relational_op(c) {
        SyntaxErrorKind::MissingExprAfterRelational
    } else if c == SpecTokenCode::ADD || c == SpecTokenCode::SUB {
        SyntaxErrorKind::MissingExprAfterAdditive
    } else {
        SyntaxErrorKind::MissingExprAfterMultiplicative
    }
}

/// Law: an operator without its right operand is refused, with the reason
/// of its operator, at the token after it: `x op ;` for each of the twelve
/// binary operators, `x = ;`, and `- ;` and `! ;`.
pub proof fn law_missing_operands(toks: Seq<Token>, st: PState)
    requires
        0 <= st.pos,
        st.pos + 2 < toks.len(),
    ensures
        name_at(toks, st.pos) && is_binary_op(toks[st.pos + 1].code@) && starts_no_expr(toks[st.pos + 2].code@)
            ==> expr(toks, st) == Step::Fail(
            missing_right_operand(toks[st.pos + 1].code@),
            toks[st.pos + 2].line as int,
        ),
        name_at(toks, st.pos) && toks[st.pos + 1].code@ == SpecTokenCode::ASSIGN && starts_no_expr(
            toks[st.pos + 2].code@,
        ) ==> expr(toks, st) == Step::Fail(SyntaxErrorKind::MissingExprAfterAssign, toks[st.pos + 2].line as int),
        (toks[st.pos].code@ == SpecTokenCode::SUB || toks[st.pos].code@ == SpecTokenCode::NOT) && starts_no_expr(
            toks[st.pos + 1].code@,
        ) ==> expr(toks, st) == Step::Fail(SyntaxErrorKind::MissingExprAfterUnary, toks[st.pos + 1].line as int),
{
    let s1 = step1(st);
    let s2 = step1(s1);
    if name_at(toks, st.pos) && is_binary_op(toks[st.pos + 1].code@) && starts_no_expr(toks[st.pos + 2].code@) {
        let l = level_of(toks[st.pos + 1].code@);
        assert(op_at(toks, s1, l));
        assert forall|m: BinLevel| level_index(m) < level_index(l) implies !#[trigger] op_at(toks, s1, m) by {}
        lemma_operand_below(toks, st, l);
        lemma_no_operand(toks, s2, tighter(l));
        assert(binary_tail(toks, s1, l) == Run::Fail(missing_right_operand(toks[st.pos + 1].code@), toks[st.pos + 2].line as int));
        assert(binary(toks, st, l) is Fail);
        lemma_fail_looser(toks, st, l, BinLevel::Or);
        lemma_name_operand(toks, st);
        assert(!is_at(toks, after(st, 0, st.syms, st.depth), SpecTokenCode::ASSIGN));
        reveal(expr);
    }
    if name_at(toks, st.pos) && toks[st.pos + 1].code@ == SpecTokenCode::ASSIGN && starts_no_expr(
        toks[st.pos + 2].code@,
    ) {
        lemma_name_operand(toks, st);
        lemma_no_expr(toks, s2);
        reveal(expr);
    }
    if (toks[st.pos].code@ == SpecTokenCode::SUB || toks[st.pos].code@ == SpecTokenCode::NOT) && starts_no_expr(
        toks[st.pos + 1].code@,
    ) {
        lemma_no_operand(toks, s1, BinLevel::Or);
        assert(unary(toks, st) is Fail);
        assert(expr_cast(toks, st) is Fail);
        lemma_fail_looser(toks, st, BinLevel::Multiplicative, BinLevel::Or);
        reveal(expr);
    }
}

/// A refusal at level `l` is the refusal at every looser level.
proof fn lemma_fail_looser(toks: Seq<Token>, st: PState, l: BinLevel, l2: BinLevel)
    requires
        binary(toks, st, l) is Fail || (l == BinLevel::Multiplicative && expr_cast(toks, st) is Fail),
        level_index(l) <= level_index(l2),
    ensures
        binary(toks, st, l2) == (if binary(toks, st, l) is Fail { binary(toks, st, l) } else { expr_cast(toks, st) }),
    decreases level_index(l2),
{
    if l2 != l {
        lemma_fail_looser(toks, st, l, tighter(l2));
    }
}

/// Law: `x[` without an index, and `x[y` without `]`, is refused with its reason, at the token where it stops.
pub proof fn law_index_errors(toks: Seq<Token>, st: PState)
    requires
        0 <= st.pos,
        st.pos + 3 < toks.len(),
    ensures
        name_at(toks, st.pos) && toks[st.pos + 1].code@ == SpecTokenCode::LBRACKET && starts_no_expr(toks[st.pos + 2].code@) ==> expr(toks, st) == Step::Fail(SyntaxErrorKind::MissingExprInIndex, toks[st.pos + 2].line as int),
        name_at(toks, st.pos) && toks[st.pos + 1].code@ == SpecTokenCode::LBRACKET && name_at(toks, st.pos + 2) && closes_expr(toks[st.pos + 3].code@) && toks[st.pos + 3].code@ != SpecTokenCode::RBRACKET ==> expr(toks, st) == Step::Fail(SyntaxErrorKind::MissingRbracketAfterIndex, toks[st.pos + 3].line as int),
{
    let s1 = step1(st);
    let s2 = step1(s1);
    if name_at(toks, st.pos) && toks[st.pos + 1].code@ == SpecTokenCode::LBRACKET && starts_no_expr(toks[st.pos + 2].code@) {
        lemma_no_expr(toks, s2);
        lemma_primary_name(toks, st);
        assert(expr_postfix(toks, st) == Step::Fail(SyntaxErrorKind::MissingExprInIndex, toks[st.pos + 2].line as int)) by {
            reveal(expr);
        }
        lemma_postfix_fail(toks, st);
    }
    if name_at(toks, st.pos) && toks[st.pos + 1].code@ == SpecTokenCode::LBRACKET && name_at(toks, st.pos + 2) && closes_expr(toks[st.pos + 3].code@) && toks[st.pos + 3].code@ != SpecTokenCode::RBRACKET {
        lemma_name_expr(toks, s2);
        lemma_primary_name(toks, st);
        assert(expr_postfix(toks, st) == Step::Fail(SyntaxErrorKind::MissingRbracketAfterIndex, toks[st.pos + 3].line as int)) by {
            reveal(expr);
        }
        lemma_postfix_fail(toks, st);
    }
}

/// Law: `x.` without a name is refused with its reason, at the token where it stops.
pub proof fn law_member_errors(toks: Seq<Token>, st: PState)
    requires
        0 <= st.pos,
        st.pos + 3 < toks.len(),
    ensures
        name_at(toks, st.pos) && toks[st.pos + 1].code@ == SpecTokenCode::DOT && !(toks[st.pos + 2].code is ID) ==> expr(toks, st) == Step::Fail(SyntaxErrorKind::MissingIdAfterDot, toks[st.pos + 2].line as int),
{
    let s1 = step1(st);
    let s2 = step1(s1);
    if name_at(toks, st.pos) && toks[st.pos + 1].code@ == SpecTokenCode::DOT && !(toks[st.pos + 2].code is ID) {
        lemma_primary_name(toks, st);
        assert(expr_postfix(toks, st) == Step::Fail(SyntaxErrorKind::MissingIdAfterDot, toks[st.pos + 2].line as int));
        lemma_postfix_fail(toks, st);
    }
}

/// Law: `f(x` without `)` is refused with its reason, at the token where it stops.
pub proof fn law_call_errors(toks: Seq<Token>, st: PState)
    requires
        0 <= st.pos,
        st.pos + 3 < toks.len(),
    ensures
        name_at(toks, st.pos) && toks[st.pos + 1].code@ == SpecTokenCode::LPAR && name_at(toks, st.pos + 2) && closes_expr(toks[st.pos + 3].code@) && toks[st.pos + 3].code@ != SpecTokenCode::RPAR && toks[st.pos + 3].code@ != SpecTokenCode::COMMA ==> expr(toks, st) == Step::Fail(SyntaxErrorKind::MissingRparAfterCallArgs, toks[st.pos + 3].line as int),
{
    let s1 = step1(st);
    let s2 = step1(s1);
    if name_at(toks, st.pos) && toks[st.pos + 1].code@ == SpecTokenCode::LPAR && name_at(toks, st.pos + 2) && closes_expr(toks[st.pos + 3].code@) && toks[st.pos + 3].code@ != SpecTokenCode::COMMA && toks[st.pos + 3].code@ != SpecTokenCode::RPAR {
        lemma_call_missing_rpar(toks, s1);
        assert(id_at(toks, st) is Some);
        assert(expr_primary(toks, st) is Fail);
        assert(expr_postfix(toks, st) is Fail);
        lemma_postfix_fail(toks, st);
    }
}

/// Law: `(x` without `)` is refused with its reason, at the token where it stops.
pub proof fn law_group_errors(toks: Seq<Token>, st: PState)
    requires
        0 <= st.pos,
        st.pos + 3 < toks.len(),
    ensures
        toks[st.pos].code@ == SpecTokenCode::LPAR && name_at(toks, st.pos + 1) && closes_expr(toks[st.pos + 2].code@) && toks[st.pos + 2].code@ != SpecTokenCode::RPAR ==> expr(toks, st) == Step::Fail(SyntaxErrorKind::MissingRparInGroup, toks[st.pos + 2].line as int),
{
    let s1 = step1(st);
    let s2 = step1(s1);
    if toks[st.pos].code@ == SpecTokenCode::LPAR && name_at(toks, st.pos + 1) && closes_expr(toks[st.pos + 2].code@) && toks[st.pos + 2].code@ != SpecTokenCode::RPAR {
        lemma_group_missing_rpar(toks, st);
        assert(expr_postfix(toks, st) is Fail);
        assert(unary(toks, st) is Fail);
        assert(type_base(toks, s1) is No);
        assert(expr_cast(toks, st) == unary(toks, st));
        lemma_fail_looser(toks, st, BinLevel::Multiplicative, BinLevel::Or);
        assert(expr_assign(toks, st) == unary(toks, st));
        reveal(expr);
    }
}

/// A refusal inside a postfix expression is the refusal of the whole
/// expression.
proof fn lemma_postfix_fail(toks: Seq<Token>, st: PState)
    requires
        0 <= st.pos < toks.len(),
        toks[st.pos].code@ != SpecTokenCode::SUB,
        toks[st.pos].code@ != SpecTokenCode::NOT,
        toks[st.pos].code@ != SpecTokenCode::LPAR,
        expr_postfix(toks, st) is Fail,
    ensures
        expr(toks, st) == expr_postfix(toks, st),
{
    assert(unary(toks, st) == expr_postfix(toks, st));
    if toks[st.pos].code@ != SpecTokenCode::LPAR {
        assert(expr_cast(toks, st) == expr_postfix(toks, st));
        lemma_fail_looser(toks, st, BinLevel::Multiplicative, BinLevel::Or);
    }
    assert(expr_assign(toks, st) == expr_postfix(toks, st));
    reveal(expr);
}

proof fn lemma_call_missing_rpar(toks: Seq<Token>, s1: PState)
    requires
        0 <= s1.pos,
        s1.pos + 2 < toks.len(),
        toks[s1.pos].code@ == SpecTokenCode::LPAR,
        name_at(toks, s1.pos + 1),
        closes_expr(toks[s1.pos + 2].code@),
        toks[s1.pos + 2].code@ != SpecTokenCode::RPAR,
        toks[s1.pos + 2].code@ != SpecTokenCode::COMMA,
    ensures
        call_suffix(toks, s1) == Run::Fail(SyntaxErrorKind::MissingRparAfterCallArgs, toks[s1.pos + 2].line as int),
{
    let s2 = step1(s1);
    let s3 = step1(s2);
    lemma_name_expr(toks, s2);
    assert(args_tail(toks, s3) == Run::Done(s3));
    assert(!is_at(toks, s3, SpecTokenCode::RPAR));
    reveal(expr);
}

proof fn lemma_group_missing_rpar(toks: Seq<Token>, st: PState)
    requires
        0 <= st.pos,
        st.pos + 2 < toks.len(),
        toks[st.pos].code@ == SpecTokenCode::LPAR,
        name_at(toks, st.pos + 1),
        closes_expr(toks[st.pos + 2].code@),
        toks[st.pos + 2].code@ != SpecTokenCode::RPAR,
    ensures
        expr_primary(toks, st) == Step::Fail(SyntaxErrorKind::MissingRparInGroup, toks[st.pos + 2].line as int),
{
    lemma_name_expr(toks, step1(st));
    assert(!(toks[st.pos].code is ID));
    assert(!constant_at(toks, st));
    reveal(expr);
}

/// Law: variable declarations that miss a token are refused with the
/// reason, at the token where they stop: a `,` without a name after it, a
/// name without its `;`, and `[ size` without `]`.
pub proof fn law_declaration_errors(toks: Seq<Token>, st: PState)
    requires
        0 <= st.pos,
        st.pos + 4 < toks.len(),
        toks[st.pos].code@ == SpecTokenCode::INT,
        name_at(toks, st.pos + 1),
        !defined_at(st.syms, name_of(toks, st.pos + 1)@, st.depth as i32),
    ensures
        toks[st.pos + 2].code@ == SpecTokenCode::COMMA && !(toks[st.pos + 3].code is ID) ==> var_def(toks, st)
            == Step::Fail(SyntaxErrorKind::MissingVarNameAfterComma, toks[st.pos + 3].line as int),
        toks[st.pos + 2].code@ != SpecTokenCode::SEMICOLON && toks[st.pos + 2].code@ != SpecTokenCode::COMMA
            && toks[st.pos + 2].code@ != SpecTokenCode::LBRACKET ==> var_def(toks, st) == Step::Fail(
            SyntaxErrorKind::MissingSemicolonAfterVarDecl,
            toks[st.pos + 2].line as int,
        ),
        toks[st.pos + 2].code@ == SpecTokenCode::LBRACKET && name_at(toks, st.pos + 3) && closes_expr(
            toks[st.pos + 4].code@,
        ) && toks[st.pos + 4].code@ != SpecTokenCode::RBRACKET ==> var_def(toks, st) == Step::Fail(
            SyntaxErrorKind::MissingRbracketInArrayDecl,
            toks[st.pos + 4].line as int,
        ),
{
    reveal(var_def);
    let s1 = step1(st);
    let s2 = step1(s1);
    let s3 = step1(s2);
    assert(id_at(toks, s1) == Some(name_of(toks, st.pos + 1)));
    if toks[st.pos + 2].code@ == SpecTokenCode::LBRACKET && name_at(toks, st.pos + 3) && closes_expr(
        toks[st.pos + 4].code@,
    ) {
        lemma_name_expr(toks, s3);
        reveal(expr);
    }
}

/// Law: function definitions that miss a token are refused with the
/// reason, at the token where they stop: `void F ( )` without a body, a
/// parameter type without its name, a `,` without a parameter after it, and
/// a parameter list without its `)`.
pub proof fn law_function_errors(toks: Seq<Token>, st: PState)
    requires
        0 <= st.pos,
        st.pos + 6 < toks.len(),
        0 <= st.depth < i32::MAX - 1,
        depths_within(st.syms, st.depth),
        toks[st.pos].code@ == SpecTokenCode::VOID,
        name_at(toks, st.pos + 1),
        toks[st.pos + 2].code@ == SpecTokenCode::LPAR,
        !defined_at(st.syms, name_of(toks, st.pos + 1)@, st.depth as i32),
    ensures
        toks[st.pos + 3].code@ == SpecTokenCode::RPAR && toks[st.pos + 4].code@ != SpecTokenCode::LACC ==> fn_def(
            toks,
            st,
        ) == Step::Fail(SyntaxErrorKind::ExpectedFnBody, toks[st.pos + 4].line as int),
        toks[st.pos + 3].code@ == SpecTokenCode::INT && !(toks[st.pos + 4].code is ID) ==> fn_def(toks, st)
            == Step::Fail(SyntaxErrorKind::MissingIdInParam, toks[st.pos + 4].line as int),
        toks[st.pos + 3].code@ == SpecTokenCode::INT && name_at(toks, st.pos + 4) && toks[st.pos + 5].code@
            == SpecTokenCode::COMMA && toks[st.pos + 6].code@ == SpecTokenCode::RPAR ==> fn_def(toks, st)
            == Step::Fail(SyntaxErrorKind::ExpectedParamAfterComma, toks[st.pos + 6].line as int),
        toks[st.pos + 3].code@ == SpecTokenCode::INT && name_at(toks, st.pos + 4) && toks[st.pos + 5].code@
            == SpecTokenCode::LACC ==> fn_def(toks, st) == Step::Fail(
            SyntaxErrorKind::MissingRparInFnDef,
            toks[st.pos + 5].line as int,
        ),
{
    reveal(fn_def);
    reveal(fn_param);
    let d = st.depth;
    let f = declared(name_of(toks, st.pos + 1), SymbolKind::Fn, plain(TypeBase::Void), d);
    let syms1 = st.syms.push(f);
    lemma_push_within(st.syms, f, d);
    let p3 = PState { pos: st.pos + 3, syms: syms1, depth: d + 1 };
    assert(type_base(toks, st) is No);
    assert(id_at(toks, step1(st)) == Some(name_of(toks, st.pos + 1)));
    if toks[st.pos + 3].code@ == SpecTokenCode::RPAR {
        assert(type_base(toks, p3) is No);
        assert(fn_param(toks, p3) is No);
    }
    if toks[st.pos + 3].code@ == SpecTokenCode::INT && name_at(toks, st.pos + 4) && (toks[st.pos + 5].code@
        == SpecTokenCode::COMMA || toks[st.pos + 5].code@ == SpecTokenCode::LACC) {
        assert(!defined_at(syms1, name_of(toks, st.pos + 4)@, (d + 1) as i32));
        lemma_fn_param_then(toks, p3);
    }
    if toks[st.pos + 3].code@ == SpecTokenCode::INT && name_at(toks, st.pos + 4) && toks[st.pos + 5].code@
        == SpecTokenCode::COMMA && toks[st.pos + 6].code@ == SpecTokenCode::RPAR {
        let a = declared(name_of(toks, st.pos + 4), SymbolKind::Param, plain(TypeBase::Int), d + 1);
        let p6 = PState { pos: st.pos + 6, syms: syms1.push(a), depth: d + 1 };
        assert(type_base(toks, p6) is No);
        assert(fn_param(toks, p6) is No);
    }
}

/// `int NAME` as a parameter, followed by any token that is no array
/// declarator.
proof fn lemma_fn_param_then(toks: Seq<Token>, st: PState)
    requires
        0 <= st.pos,
        st.pos + 2 < toks.len(),
        toks[st.pos].code@ == SpecTokenCode::INT,
        name_at(toks, st.pos + 1),
        toks[st.pos + 2].code@ != SpecTokenCode::LBRACKET,
        !defined_at(st.syms, name_of(toks, st.pos + 1)@, st.depth as i32),
    ensures
        fn_param(toks, st) == Step::Yes(
            1,
            st.syms.push(declared(name_of(toks, st.pos + 1), SymbolKind::Param, plain(TypeBase::Int), st.depth)),
            st.depth,
        ),
{
    reveal(fn_param);
    assert(id_at(toks, step1(st)) == Some(name_of(toks, st.pos + 1)));
    assert(array_decl(toks, step1(step1(st))) is No);
}

/// Law: struct definitions that miss a token are refused with the reason,
/// at the token where they stop: `struct` without a name, a body without
/// its `}`, and `struct S { }` without its `;`.
pub proof fn law_struct_errors(toks: Seq<Token>, st: PState)
    requires
        0 <= st.pos,
        st.pos + 4 < toks.len(),
        0 <= st.depth < i32::MAX - 1,
        depths_within(st.syms, st.depth),
        toks[st.pos].code@ == SpecTokenCode::STRUCT,
    ensures
        !(toks[st.pos + 1].code is ID) ==> struct_def(toks, st) == Step::Fail(
            SyntaxErrorKind::MissingIdAfterStruct,
            toks[st.pos + 1].line as int,
        ),
        name_at(toks, st.pos + 1) && toks[st.pos + 2].code@ == SpecTokenCode::LACC && !defined_at(
            st.syms,
            name_of(toks, st.pos + 1)@,
            st.depth as i32,
        ) && toks[st.pos + 3].code@ == SpecTokenCode::END ==> struct_def(toks, st) == Step::Fail(
            SyntaxErrorKind::MissingRaccInStruct,
            toks[st.pos + 3].line as int,
        ),
        name_at(toks, st.pos + 1) && toks[st.pos + 2].code@ == SpecTokenCode::LACC && !defined_at(
            st.syms,
            name_of(toks, st.pos + 1)@,
            st.depth as i32,
        ) && toks[st.pos + 3].code@ == SpecTokenCode::RACC && toks[st.pos + 4].code@ != SpecTokenCode::SEMICOLON
            ==> struct_def(toks, st) == Step::Fail(
            SyntaxErrorKind::MissingSemicolonAfterStruct,
            toks[st.pos + 4].line as int,
        ),
{
    reveal(struct_def);
    let d = st.depth;
    if name_at(toks, st.pos + 1) {
        assert(id_at(toks, step1(st)) == Some(name_of(toks, st.pos + 1)));
        let sv = declared(name_of(toks, st.pos + 1), SymbolKind::Struct, plain(TypeBase::Struct), d);
        let syms1 = st.syms.push(sv);
        let p3 = PState { pos: st.pos + 3, syms: syms1, depth: d + 1 };
        if toks[st.pos + 3].code@ == SpecTokenCode::END || toks[st.pos + 3].code@ == SpecTokenCode::RACC {
            assert(type_base(toks, p3) is No);
            assert(var_def(toks, p3) is No) by {
                reveal(var_def);
            }
            assert(struct_members(toks, p3) == Run::Done(p3));
        }
    }
}

} // verus!
