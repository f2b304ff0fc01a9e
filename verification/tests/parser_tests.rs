use atomc::grammar::SyntaxErrorKind;
use atomc::lexer::tokenize;
use atomc::parser::{Parser, SyntaxError};
use atomc::token::{Token, TokenCode};

fn check(src: &str) -> Result<(), SyntaxError> {
    let (tokens, err) = tokenize(src);
    assert_eq!(err, None, "unexpected lexical error in {:?}", src);
    let mut parser = Parser::new(tokens);
    parser.parse()
}

fn refused(src: &str) -> SyntaxErrorKind {
    match check(src) {
        Err(e) => e.kind,
        Ok(()) => panic!("expected a syntax error for {:?}", src),
    }
}

fn in_fn(body: &str) -> String {
    format!("void f() {{ {} }}", body)
}

#[test]
fn empty_unit_is_accepted() {
    assert_eq!(check(""), Ok(()));
}

#[test]
fn tokens_without_end_are_refused_at_line_zero() {
    let mut parser = Parser::new(Vec::new());
    assert_eq!(parser.parse(), Err(SyntaxError { kind: SyntaxErrorKind::ExpectedTopLevel, line: 0 }));
    let mut parser = Parser::new(vec![
        Token { code: TokenCode::INT, line: 1 },
        Token { code: TokenCode::ID("x".to_string()), line: 1 },
        Token { code: TokenCode::SEMICOLON, line: 1 },
    ]);
    assert_eq!(parser.parse(), Err(SyntaxError { kind: SyntaxErrorKind::ExpectedTopLevel, line: 0 }));
}

#[test]
fn global_declarations() {
    assert_eq!(check("int a, b[10], c[]; double d; char e;"), Ok(()));
}

#[test]
fn struct_definition_and_use() {
    assert_eq!(check("struct P { int x; double y[3]; }; struct P p, q[2];"), Ok(()));
    assert_eq!(check("struct S { int x; }; void f(struct S s) { s.x = 1; }"), Ok(()));
}

#[test]
fn full_program() {
    let src = "int a, b[10];\n\
               struct P { int x; double y; };\n\
               struct P p;\n\
               int max(int x, int y) { if (x > y) return x; else return y; }\n\
               void main() {\n\
                 int i;\n\
                 for (i = 0; i < 10; i = i + 1) {\n\
                   if (a == b[i] && !p.x || a != -1) break; else a = -a;\n\
                 }\n\
                 while (a >= 0) a = a - max(a, 2) * 3 / 4;\n\
                 p.y = 2.5e1;\n\
                 b[0] = 'c';\n\
                 ;\n\
                 { double a; a = (double)i; }\n\
                 return;\n\
               }";
    assert_eq!(check(src), Ok(()));
}

#[test]
fn casts_calls_and_strings() {
    assert_eq!(check("int f(int a, double b[]) { return a * (int)b[0]; }"), Ok(()));
    assert_eq!(check(&in_fn("g(); g(1); g(1, \"s\", 'c', 2.0); x = (int[])y;")), Ok(()));
    assert_eq!(check(&in_fn("(x) = 1; x = y = z; x[1][2].a.b = -!y;")), Ok(()));
    assert_eq!(check(&in_fn("for (;;) ; for (i = 0; ; ) {} while (1) {}")), Ok(()));
}

#[test]
fn shadowing_and_scopes() {
    assert_eq!(check("int a; void f() { int a; }"), Ok(()));
    assert_eq!(check("void f() { int a; { int a; } }"), Ok(()));
    assert_eq!(check("void f() { { int a; } { int a; } }"), Ok(()));
    assert_eq!(check("struct S { int x; }; int x;"), Ok(()));
    assert_eq!(check("void f(int a) { } void g(int a) { }"), Ok(()));
}

#[test]
fn redefinitions() {
    assert_eq!(
        check("int a;\nint a;"),
        Err(SyntaxError { kind: SyntaxErrorKind::Redefinition("a".to_string()), line: 2 })
    );
    assert_eq!(refused("int f; void f() {}"), SyntaxErrorKind::Redefinition("f".to_string()));
    assert_eq!(refused("void f(int a) { int a; }"), SyntaxErrorKind::Redefinition("a".to_string()));
    assert_eq!(refused("void f(int a, char a) { }"), SyntaxErrorKind::Redefinition("a".to_string()));
    assert_eq!(refused("struct S { }; struct S { };"), SyntaxErrorKind::Redefinition("S".to_string()));
    assert_eq!(refused("struct S { int x, x; };"), SyntaxErrorKind::Redefinition("x".to_string()));
}

#[test]
fn top_level_errors() {
    assert_eq!(check("int x; 5"), Err(SyntaxError { kind: SyntaxErrorKind::ExpectedTopLevel, line: 1 }));
    assert_eq!(refused("x;"), SyntaxErrorKind::ExpectedTopLevel);
    assert_eq!(refused("void;"), SyntaxErrorKind::ExpectedTopLevel);
}

#[test]
fn struct_errors() {
    assert_eq!(refused("struct S { int x; }"), SyntaxErrorKind::MissingSemicolonAfterStruct);
    assert_eq!(refused("struct S { int x; "), SyntaxErrorKind::MissingRaccInStruct);
    assert_eq!(refused("struct ;"), SyntaxErrorKind::MissingIdAfterStruct);
    assert_eq!(refused("int f(struct) {}"), SyntaxErrorKind::MissingIdAfterStruct);
    assert_eq!(refused("struct P p;"), SyntaxErrorKind::UndefinedStruct("P".to_string()));
}

#[test]
fn a_struct_type_must_name_a_struct() {
    assert_eq!(refused("int P; struct P p;"), SyntaxErrorKind::UndefinedStruct("P".to_string()));
    assert_eq!(check("struct P { int x; }; void f() { int P; struct P q; }"), Ok(()));
    assert_eq!(check("struct S { int x; }; int f() { int S; struct S v; return S; }"), Ok(()));
    assert_eq!(check("struct P { int x; }; void f() { struct P q; }"), Ok(()));
}

#[test]
fn variable_declaration_errors() {
    assert_eq!(refused("int a, ;"), SyntaxErrorKind::MissingVarNameAfterComma);
    assert_eq!(
        check("int a\nb"),
        Err(SyntaxError { kind: SyntaxErrorKind::MissingSemicolonAfterVarDecl, line: 2 })
    );
    assert_eq!(refused("int a[5;"), SyntaxErrorKind::MissingRbracketInArrayDecl);
}

#[test]
fn function_definition_errors() {
    assert_eq!(refused("void f(int a, ) {}"), SyntaxErrorKind::ExpectedParamAfterComma);
    assert_eq!(refused("void f() int"), SyntaxErrorKind::ExpectedFnBody);
    assert_eq!(refused("void f(int a {}"), SyntaxErrorKind::MissingRparInFnDef);
    assert_eq!(refused("void f(int) {}"), SyntaxErrorKind::MissingIdInParam);
    assert_eq!(refused("void f() { x; "), SyntaxErrorKind::MissingRaccInCompound);
}

#[test]
fn if_errors() {
    assert_eq!(refused(&in_fn("if x")), SyntaxErrorKind::MissingLparAfterIf);
    assert_eq!(refused(&in_fn("if () ;")), SyntaxErrorKind::InvalidIfCondition);
    assert_eq!(refused(&in_fn("if (x ;")), SyntaxErrorKind::MissingRparAfterIfCondition);
    assert_eq!(refused(&in_fn("if (x)")), SyntaxErrorKind::MissingIfBranch);
    assert_eq!(refused(&in_fn("if (x) ; else")), SyntaxErrorKind::MissingElseBranch);
}

#[test]
fn while_errors() {
    assert_eq!(refused(&in_fn("while x")), SyntaxErrorKind::MissingLparAfterWhile);
    assert_eq!(refused(&in_fn("while () ;")), SyntaxErrorKind::InvalidWhileCondition);
    assert_eq!(refused(&in_fn("while (x ;")), SyntaxErrorKind::MissingRparAfterWhileCondition);
    assert_eq!(refused(&in_fn("while (x)")), SyntaxErrorKind::MissingWhileBody);
}

#[test]
fn for_errors() {
    assert_eq!(refused(&in_fn("for x")), SyntaxErrorKind::MissingLparAfterFor);
    assert_eq!(refused(&in_fn("for (x) ;")), SyntaxErrorKind::MissingFirstSemicolonInFor);
    assert_eq!(refused(&in_fn("for (; x) ;")), SyntaxErrorKind::MissingSecondSemicolonInFor);
    assert_eq!(refused(&in_fn("for (;; x ;")), SyntaxErrorKind::MissingRparInFor);
    assert_eq!(refused(&in_fn("for (;;)")), SyntaxErrorKind::MissingForBody);
}

#[test]
fn jump_and_expression_statement_errors() {
    assert_eq!(refused(&in_fn("break")), SyntaxErrorKind::MissingSemicolonAfterBreak);
    assert_eq!(refused(&in_fn("return 1")), SyntaxErrorKind::MissingSemicolonAfterReturn);
    assert_eq!(refused(&in_fn("x")), SyntaxErrorKind::MissingSemicolonAfterExpr);
}

#[test]
fn binary_operator_errors() {
    assert_eq!(refused(&in_fn("x = ;")), SyntaxErrorKind::MissingExprAfterAssign);
    assert_eq!(refused(&in_fn("x || ;")), SyntaxErrorKind::MissingExprAfterOr);
    assert_eq!(refused(&in_fn("x && ;")), SyntaxErrorKind::MissingExprAfterAnd);
    assert_eq!(refused(&in_fn("x == ;")), SyntaxErrorKind::MissingExprAfterEquality);
    assert_eq!(refused(&in_fn("x != ;")), SyntaxErrorKind::MissingExprAfterEquality);
    assert_eq!(refused(&in_fn("x < ;")), SyntaxErrorKind::MissingExprAfterRelational);
    assert_eq!(refused(&in_fn("x >= ;")), SyntaxErrorKind::MissingExprAfterRelational);
    assert_eq!(refused(&in_fn("x + ;")), SyntaxErrorKind::MissingExprAfterAdditive);
    assert_eq!(refused(&in_fn("x - ;")), SyntaxErrorKind::MissingExprAfterAdditive);
    assert_eq!(refused(&in_fn("x * ;")), SyntaxErrorKind::MissingExprAfterMultiplicative);
    assert_eq!(refused(&in_fn("x / ;")), SyntaxErrorKind::MissingExprAfterMultiplicative);
}

#[test]
fn unary_and_postfix_errors() {
    assert_eq!(refused(&in_fn("-;")), SyntaxErrorKind::MissingExprAfterUnary);
    assert_eq!(refused(&in_fn("!;")), SyntaxErrorKind::MissingExprAfterUnary);
    assert_eq!(refused(&in_fn("x[];")), SyntaxErrorKind::MissingExprInIndex);
    assert_eq!(refused(&in_fn("x[1;")), SyntaxErrorKind::MissingRbracketAfterIndex);
    assert_eq!(refused(&in_fn("x.;")), SyntaxErrorKind::MissingIdAfterDot);
}

#[test]
fn call_and_group_errors() {
    assert_eq!(refused(&in_fn("f(1,);")), SyntaxErrorKind::ExpectedExprAfterCommaInCall);
    assert_eq!(refused(&in_fn("f(1;")), SyntaxErrorKind::MissingRparAfterCallArgs);
    assert_eq!(refused(&in_fn("(x;")), SyntaxErrorKind::MissingRparInGroup);
}

#[test]
fn a_parenthesised_operand_without_a_type_is_a_group() {
    assert_eq!(check(&in_fn("(x);")), Ok(()));
    assert_eq!(check(&in_fn("y = (x) + 1;")), Ok(()));
    assert_eq!(check(&in_fn("y = (a + b) * (c - d);")), Ok(()));
    assert_eq!(check(&in_fn("y = (int)x + 1;")), Ok(()));
    assert_eq!(check(&in_fn("y = (double)(x + 1);")), Ok(()));
    assert_eq!(refused(&in_fn("y = (x + 1;")), SyntaxErrorKind::MissingRparInGroup);
    assert_eq!(refused(&in_fn("y = (struct Q)x;")), SyntaxErrorKind::UndefinedStruct("Q".to_string()));
}

fn globals(src: &str) -> Vec<(String, i32)> {
    let (tokens, err) = tokenize(src);
    assert_eq!(err, None);
    let mut parser = Parser::new(tokens);
    assert_eq!(parser.parse(), Ok(()));
    parser.symbols().iter().map(|s| (s.name.clone(), s.type_info.elements)).collect()
}

#[test]
fn array_sizes_written_as_constants_are_kept() {
    assert_eq!(
        globals("int a[5], b[], c[2 + 3], d; double e[0x10]; char f[0];"),
        vec![
            ("a".to_string(), 5),
            ("b".to_string(), 0),
            ("c".to_string(), 0),
            ("d".to_string(), -1),
            ("e".to_string(), 16),
            ("f".to_string(), 0),
        ]
    );
    assert_eq!(globals("int big[2147483648], max[2147483647];"), vec![
        ("big".to_string(), 0),
        ("max".to_string(), 2147483647),
    ]);
}

#[test]
fn symbols_after_a_unit_are_its_globals() {
    let (tokens, _) = tokenize("struct S { int x; }; int g; void f(int a) { int l; }");
    let mut parser = Parser::new(tokens);
    assert_eq!(parser.parse(), Ok(()));
    let names: Vec<&str> = parser.symbols().iter().map(|s| s.name.as_str()).collect();
    assert_eq!(names, vec!["S", "g", "f"]);
    assert!(parser.symbols().iter().all(|s| s.depth == 0));
}

#[test]
fn error_line_is_the_line_of_the_current_token() {
    assert_eq!(
        check("void f() {\n  x = 1\n}"),
        Err(SyntaxError { kind: SyntaxErrorKind::MissingSemicolonAfterExpr, line: 3 })
    );
    assert_eq!(
        check("void f() {\n\n  while (x)\n"),
        Err(SyntaxError { kind: SyntaxErrorKind::MissingWhileBody, line: 4 })
    );
}

#[test]
fn messages_of_refusals() {
    assert_eq!(SyntaxErrorKind::Redefinition("a".to_string()).message(), "Symbol redefinition: a");
    assert_eq!(SyntaxErrorKind::UndefinedStruct("P".to_string()).message(), "Undefined struct: P");
    assert_eq!(SyntaxErrorKind::ExpectedTopLevel.message(), "Expected EOF, struct_def, fn_def or var_def");
    assert_eq!(refused("struct S { int x; ").message(), "Missing '}' in struct definition");
    assert_eq!(refused(&in_fn("for (;;)")).message(), "Missing statement for 'for' loop body");
    assert_eq!(refused(&in_fn("x || ;")).message(), "Expected expression after '||'");
}
