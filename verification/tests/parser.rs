use rustic::ast::{BinOp, Expr, Item, PrimType, Stmt, Type, UnaryOp};
use rustic::lexer::tokenize;
use rustic::parser::Parser;
use rustic::interp::FloatOp;

fn floats(op: FloatOp) -> u64 {
    let f = f64::from_bits;
    match op {
        FloatOp::Parse(s) => s.parse::<f64>().unwrap().to_bits(),
        FloatOp::TextLen(a) => format!("{:?}", f(a)).chars().count() as u64,
        FloatOp::TextChar(a, i) => format!("{:?}", f(a)).chars().nth(i as usize).map_or(0, u64::from),
        _ => 0,
    }
}


fn parse(src: &str) -> Result<Vec<Item>, String> {
    let mut p = Parser::new(tokenize(src));
    p.parse(&floats)
}

fn err(src: &str) -> String {
    parse(src).unwrap_err()
}

fn parse_debug(src: &str) -> String {
    format!("{:?}", parse(src).unwrap())
}

/// The expression of `fn f() -> type { <src>; }`.
fn expr_of(src: &str) -> Expr {
    let items = parse(&format!("fn f() -> type {{ {}; }}", src)).unwrap();
    match &items[0] {
        Item::Fn { body: Expr::Block(stmts), .. } => match &stmts[0] {
            Stmt::Expr(e) => e.clone(),
            other => panic!("not an expression statement: {:?}", other),
        },
        other => panic!("not a function: {:?}", other),
    }
}

#[test]
fn empty_program_has_no_items() {
    assert_eq!(parse("").unwrap().len(), 0);
    assert_eq!(parse("   // nothing\n").unwrap().len(), 0);
}

#[test]
fn a_function_with_parameters() {
    assert_eq!(
        parse_debug("fn add(a: type, b: Int) -> Int { return a + b; }"),
        "[Fn { name: \"add\", params: [(\"a\", Prim(Int)), (\"b\", Prim(Int))], \
         ret: Prim(Int), body: Block([Return(Some(BinaryOp(Ident(\"a\"), Add, Ident(\"b\"))))]) }]"
    );
}

#[test]
fn structs_and_imports() {
    assert_eq!(
        parse_debug("struct P { x: type, y: Q[] z: R* } import \"m.h\" as m; import \"n.h\";"),
        "[Struct { name: \"P\", fields: [(\"x\", Prim(Int)), (\"y\", Slice(Struct(\"Q\"))), \
         (\"z\", Ptr(Struct(\"R\")))] }, Import { path: \"m.h\", alias: Some(\"m\") }, \
         Import { path: \"n.h\", alias: None }]"
    );
}

#[test]
fn multiplication_binds_tighter_than_addition() {
    assert_eq!(
        format!("{:?}", expr_of("1 + 2 * 3 - 4")),
        "BinaryOp(BinaryOp(IntLiteral(1), Add, BinaryOp(IntLiteral(2), Mul, IntLiteral(3))), Sub, IntLiteral(4))"
    );
}

#[test]
fn precedence_from_or_down_to_comparison() {
    assert_eq!(
        format!("{:?}", expr_of("a || b && c ^ d | e & f == g < h")),
        "BinaryOp(Ident(\"a\"), Or, BinaryOp(Ident(\"b\"), And, BinaryOp(Ident(\"c\"), Xor, \
         BinaryOp(Ident(\"d\"), BitOr, BinaryOp(Ident(\"e\"), BitAnd, BinaryOp(Ident(\"f\"), Eq, \
         BinaryOp(Ident(\"g\"), Lt, Ident(\"h\"))))))))"
    );
}

#[test]
fn assignment_is_right_associative() {
    assert_eq!(
        format!("{:?}", expr_of("a = b = 1")),
        "BinaryOp(Ident(\"a\"), Assign, BinaryOp(Ident(\"b\"), Assign, IntLiteral(1)))"
    );
}

#[test]
fn unary_operators_nest() {
    match expr_of("-!x") {
        Expr::UnaryOp(UnaryOp::Neg, inner) => match *inner {
            Expr::UnaryOp(UnaryOp::Not, x) => assert_eq!(format!("{:?}", x), "Ident(\"x\")"),
            other => panic!("{:?}", other),
        },
        other => panic!("{:?}", other),
    }
}

#[test]
fn calls_and_field_accesses() {
    assert_eq!(
        format!("{:?}", expr_of("f(1, g(), p.q.r)")),
        "Call(\"f\", [IntLiteral(1), Call(\"g\", []), FieldAccess(FieldAccess(Ident(\"p\"), \"q\"), \"r\")])"
    );
}

#[test]
fn statements() {
    assert_eq!(
        parse_debug(
            "fn f() -> type { let a = 1; let mut b = 2; let c: T = 3; const d: type = 4; \
             for i in 0..10 { a = i; } if a < b { return } else { b; } while c { } return a }"
        ),
        "[Fn { name: \"f\", params: [], ret: Prim(Int), body: Block([\
         Let(\"a\", None, IntLiteral(1)), \
         Let(\"b\", Some(Prim(Int)), IntLiteral(2)), \
         Let(\"c\", Some(Struct(\"T\")), IntLiteral(3)), \
         Const(\"d\", Some(Prim(Int)), IntLiteral(4)), \
         For(\"i\", IntLiteral(0), IntLiteral(10), Block([Expr(BinaryOp(Ident(\"a\"), Assign, Ident(\"i\")))])), \
         If(BinaryOp(Ident(\"a\"), Lt, Ident(\"b\")), Block([Return(None)]), Some(Block([Expr(Ident(\"b\"))]))), \
         While(Ident(\"c\"), Block([])), \
         Return(Some(Ident(\"a\")))]) }]"
    );
}

#[test]
fn whole_numbers_take_their_value_as_a_float() {
    let lit = |src: &str| format!("{:?}", expr_of(src));
    assert_eq!(lit("9007199254740993"), "IntLiteral(9007199254740992)");
    assert_eq!(lit("9007199254740995"), "IntLiteral(9007199254740996)");
    assert_eq!(lit("9223372036854775808"), "IntLiteral(9223372036854775807)");
    assert_eq!(lit("9223372036854776832"), "IntLiteral(9223372036854775807)");
    assert_eq!(lit("9223372036854776833"), "FloatLiteral(\"9223372036854776833\")");
    assert_eq!(lit("007"), "IntLiteral(7)");
    assert_eq!(lit("3.000"), "IntLiteral(3)");
    assert_eq!(lit("2.5"), "FloatLiteral(\"2.5\")");
}

#[test]
fn whole_numbers_within_i64_are_integer_literals() {
    assert_eq!(format!("{:?}", expr_of("9223372036854775807")), "IntLiteral(9223372036854775807)");
    assert_eq!(
        format!("{:?}", expr_of("99999999999999999999")),
        "FloatLiteral(\"99999999999999999999\")"
    );
}

#[test]
fn error_when_an_identifier_is_missing() {
    assert_eq!(err("fn 1() -> type {}"), "Expected identifier at line 1, column 4");
}

#[test]
fn error_names_the_expected_and_found_tokens() {
    assert_eq!(err("import \"a\" \"b\""), "Expected Semi, got StringLiteral(\"b\") at line 1, column 12");
    assert_eq!(err("fn f( -> type {}"), "Expected identifier at line 1, column 7");
    assert_eq!(err("fn f() type {}"), "Expected Arrow, got Type at line 1, column 8");
    assert_eq!(err("fn f() -> type { (1) }"), "Expected identifier at line 1, column 18");
    assert_eq!(err("fn f() -> type { g(1 }"), "Expected RParen, got RBrace at line 1, column 22");
    assert_eq!(err("fn f() -> type { g(1"), "Expected RParen, got Eof at line 1, column 21");
    assert_eq!(err("fn f() -> type { for i in 0 { } }"), "Expected DotDot, got LBrace at line 1, column 29");
    assert_eq!(err("fn f() -> type { let x = 5 }"), "Expected Semi, got RBrace at line 1, column 28");
    assert_eq!(err("fn f() -> type { let x = 5 7; }"), "Expected Semi, got Number(7.0) at line 1, column 28");
}

#[test]
fn error_when_no_item_starts() {
    assert_eq!(err("let x = 1;"), "Expected item (fn, struct, import), got Some(Let) at line 1, column 1");
    assert_eq!(err("main"), "Expected item (fn, struct, import), got Some(Ident(\"main\")) at line 1, column 1");
}

#[test]
fn a_call_on_a_field_chain_names_the_dotted_path() {
    assert_eq!(
        format!("{:?}", expr_of("a.b.c(1)")),
        "Call(\"a.b.c\", [IntLiteral(1)])"
    );
}

#[test]
fn the_readme_program_parses() {
    let items = parse(
        "import \"raylib.h\" as raylib;\n\nfn main() -> Int {\n    raylib.init_window(800, 600, \"Hello\");\n    return 0;\n}",
    )
    .unwrap();
    assert_eq!(
        format!("{:?}", items),
        "[Import { path: \"raylib.h\", alias: Some(\"raylib\") }, Fn { name: \"main\", params: [], \
         ret: Prim(Int), body: Block([Expr(Call(\"raylib.init_window\", [IntLiteral(800), IntLiteral(600), \
         StringLiteral(\"Hello\")])), Return(Some(IntLiteral(0)))]) }]"
    );
}

#[test]
fn error_when_tokens_run_out() {
    assert_eq!(err("fn f() -> type { return 1;"), "Expected identifier at line 1, column 27");
    assert_eq!(err("struct S { x: type"), "Expected identifier at line 1, column 19");
}

#[test]
fn parsing_stops_at_eof_and_reports_success() {
    let toks = tokenize("fn f() -> type { }");
    let n = toks.len();
    let mut p = Parser::new(toks);
    let items = p.parse(&floats).unwrap();
    assert_eq!(items.len(), 1);
    assert!(n >= 1);
}

#[test]
fn built_types_compare_by_structure() {
    let a = Type::Slice(Box::new(Type::Struct("S".to_string())));
    let b = a.clone();
    assert_eq!(a, b);
    assert_ne!(a, Type::Prim(PrimType::Int));
    assert_eq!(BinOp::Add, BinOp::Add);
}

#[test]
fn primitive_type_names() {
    assert_eq!(
        parse_debug("struct S { a: Float64[] b: Bool* c: Char d: UInt8 e: Strings }"),
        "[Struct { name: \"S\", fields: [(\"a\", Slice(Prim(Float64))), (\"b\", Ptr(Prim(Bool))), \
         (\"c\", Prim(Char)), (\"d\", Prim(UInt8)), (\"e\", Struct(\"Strings\"))] }]"
    );
}

#[test]
fn errors_give_the_line_and_column_of_the_offending_token() {
    assert_eq!(err("fn f() -> Int {\n  let = 1;\n}"), "Expected identifier at line 2, column 7");
    assert_eq!(
        err("struct P {\n\tx: Int\n}\n\n  fn g() -> Int { 1 } 7"),
        "Expected item (fn, struct, import), got Some(Number(7.0)) at line 5, column 23"
    );
    // A comment is skipped, and columns count characters, not bytes.
    assert_eq!(
        err("// é\nfn f() -> Int { \"é\" = }"),
        "Expected identifier at line 2, column 23"
    );
}

#[test]
fn number_tokens_print_as_their_float_value() {
    let got = |src: &str| err(&format!("fn f() -> type {{ let x = 1 {} }}", src));
    assert_eq!(got("007"), "Expected Semi, got Number(7.0) at line 1, column 28");
    assert_eq!(got("10000000000000000"), "Expected Semi, got Number(1e16) at line 1, column 28");
    assert_eq!(got("9007199254740993"), "Expected Semi, got Number(9007199254740992.0) at line 1, column 28");
    assert_eq!(got("9223372036854775808"), "Expected Semi, got Number(9.223372036854776e18) at line 1, column 28");
    assert_eq!(got("1230000000000000000"), "Expected Semi, got Number(1.23e18) at line 1, column 28");
    assert_eq!(got("0.50"), "Expected Semi, got Number(0.5) at line 1, column 28");
    assert_eq!(got("003.250"), "Expected Semi, got Number(3.25) at line 1, column 28");
    assert_eq!(got("4."), "Expected Semi, got Number(4.0) at line 1, column 28");
}

#[test]
fn large_numbers_with_a_fraction_round_to_whole_floats() {
    let lit = |src: &str| format!("{:?}", expr_of(src));
    assert_eq!(lit("4503599627370496.5"), "IntLiteral(4503599627370496)");
    assert_eq!(lit("4503599627370497.5"), "IntLiteral(4503599627370498)");
    assert_eq!(lit("4503599627370496.6"), "IntLiteral(4503599627370497)");
    assert_eq!(lit("9007199254740993.1"), "IntLiteral(9007199254740994)");
    assert_eq!(lit("9223372036854776832.5"), "FloatLiteral(\"9223372036854776832.5\")");
    assert_eq!(lit("1.5"), "FloatLiteral(\"1.5\")");
    let got = |src: &str| err(&format!("fn f() -> type {{ let x = 1 {} }}", src));
    assert_eq!(got("4503599627370496.5"), "Expected Semi, got Number(4503599627370496.0) at line 1, column 28");
    assert_eq!(
        got("9223372036854776832.5"),
        "Expected Semi, got Number(9.223372036854778e18) at line 1, column 28"
    );
}

#[test]
fn small_numbers_print_in_scientific_notation() {
    let got = |src: &str| err(&format!("fn f() -> type {{ let x = 1 {} }}", src));
    assert_eq!(got("0.00001"), "Expected Semi, got Number(1e-5) at line 1, column 28");
    assert_eq!(got("0.000015"), "Expected Semi, got Number(1.5e-5) at line 1, column 28");
    assert_eq!(got("0.0001"), "Expected Semi, got Number(0.0001) at line 1, column 28");
    assert_eq!(got("000.00012300"), "Expected Semi, got Number(0.000123) at line 1, column 28");
}

#[test]
fn a_literal_whose_float_is_whole_is_an_integer() {
    let lit = |src: &str| format!("{:?}", expr_of(src));
    assert_eq!(lit("1.00000000000000001"), "IntLiteral(1)");
    assert_eq!(lit("0.99999999999999999"), "IntLiteral(1)");
    assert_eq!(lit("2.50"), "FloatLiteral(\"2.50\")");
    let got = |src: &str| err(&format!("fn f() -> type {{ let x = 1 {} }}", src));
    assert_eq!(got("0.12345678901234567890"), "Expected Semi, got Number(0.12345678901234568) at line 1, column 28");
    assert_eq!(
        got("123456789012345678901234567890"),
        "Expected Semi, got Number(1.2345678901234568e29) at line 1, column 28"
    );
}
