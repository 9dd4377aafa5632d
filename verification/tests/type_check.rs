use rustic::ast::{Expr, Item, PrimType, Stmt, Type, UnaryOp};
use rustic::lexer::tokenize;
use rustic::parser::Parser;
use rustic::type_check::{TypeChecker, TypeError};
use rustic::interp::FloatOp;

fn floats(op: FloatOp) -> u64 {
    let f = f64::from_bits;
    match op {
        FloatOp::Parse(s) => s.parse::<f64>().unwrap().to_bits(),
        FloatOp::TextLen(a) => format!("{:?}", f(a)).chars().count() as u64,
        FloatOp::TextChar(a, i) => format!("{:?}", f(a)).chars().nth(i as usize).map_or(0, u64::from),
        _ => 0,
    }
}


fn items(src: &str) -> Vec<Item> {
    Parser::new(tokenize(src)).parse(&floats).unwrap()
}

fn check(src: &str) -> (TypeChecker, Result<(), TypeError>) {
    let mut tc = TypeChecker::new();
    let r = tc.check_items(&items(src));
    (tc, r)
}

fn error(src: &str) -> TypeError {
    check(src).1.unwrap_err()
}

fn mismatch(expected: &str, got: &str) -> TypeError {
    TypeError::TypeMismatch { expected: expected.to_string(), got: got.to_string() }
}

fn int_type() -> Type {
    Type::Prim(PrimType::Int)
}

#[test]
fn a_well_typed_program_checks() {
    let (tc, r) = check(
        "struct P { x: type, name: String } \
         fn add(a: type, b: type) -> type { return a + b } \
         fn get(p: P) -> String { let n = p.name; n } \
         fn main() -> type { let s = add(1, 2); if s < 3 { s } else { 0 } }",
    );
    assert_eq!(r, Ok(()));
    assert!(tc.functions.contains_key(&"add".to_string()));
    assert!(tc.functions.contains_key(&"main".to_string()));
    assert!(tc.structs.contains_key(&"P".to_string()));
    assert!(!tc.functions.contains_key(&"P".to_string()));
}

#[test]
fn success_closes_every_scope_it_opened() {
    let (tc, r) = check("fn f(a: type) -> type { let b = a; while b < 1 { b = b + 1; } b }");
    assert_eq!(r, Ok(()));
    assert_eq!(tc.types.len(), 1);
    assert!(tc.types[0].get(&"a".to_string()).is_none());
    assert!(tc.types[0].get(&"b".to_string()).is_none());
}

#[test]
fn an_error_leaves_the_scopes_it_opened() {
    let (tc, r) = check("fn f(a: type) -> type { return y }");
    assert_eq!(r, Err(TypeError::UndefinedVariable("y".to_string())));
    assert_eq!(tc.types.len(), 3);
    assert_eq!(tc.types[1].get(&"a".to_string()), Some(&int_type()));
    assert!(tc.functions.contains_key(&"f".to_string()));
}

#[test]
fn a_primitive_type_name_denotes_that_type() {
    let (tc, r) = check("fn main() -> Int { return 0; }");
    assert_eq!(r, Ok(()));
    assert!(tc.functions.contains_key(&"main".to_string()));
    let e = error("fn main() -> Bool { return 1; }");
    assert_eq!(
        e,
        TypeError::ReturnTypeMismatch { expected: "Bool".to_string(), got: "Int".to_string() }
    );
    assert_eq!(e.to_string(), "Return type mismatch: expected Bool, got Int");
    // A function declared to return `Int` accepts any body.
    assert_eq!(check("fn main() -> Int { return \"s\"; }").1, Ok(()));
    assert_eq!(check("fn main() -> Bool { return 1 < 2; }").1, Ok(()));
    assert_eq!(check("fn main() -> String { return \"hi\"; }").1, Ok(()));
    assert_eq!(check("fn f(x: Float) -> Float { return x; }").1, Ok(()));
    assert_eq!(check("fn main() -> type { \"anything\" }").1, Ok(()));
    assert_eq!(
        error("struct P { x: Int } fn main() -> P { return 0; }"),
        TypeError::ReturnTypeMismatch { expected: "P".to_string(), got: "Int".to_string() }
    );
}

#[test]
fn undefined_names() {
    assert_eq!(error("fn f() -> type { x }"), TypeError::UndefinedVariable("x".to_string()));
    assert_eq!(error("fn f() -> type { y = 1; }"), TypeError::UndefinedVariable("y".to_string()));
    assert_eq!(error("fn f() -> type { g() }"), TypeError::UndefinedFunction("g".to_string()));
    assert_eq!(
        error("fn f() -> type { if 1 == 1 { let x = 1; } x }"),
        TypeError::UndefinedVariable("x".to_string())
    );
}

#[test]
fn calls_check_arity_and_argument_types() {
    assert_eq!(
        error("fn g(a: type) -> type { a } fn f() -> type { g(1, 2) }"),
        mismatch("1 args", "2 args")
    );
    assert_eq!(
        error("fn g(a: type) -> type { a } fn f() -> type { g(\"s\") }"),
        mismatch("Int", "String")
    );
    assert_eq!(check("fn f(n: type) -> type { f(n - 1) }").1, Ok(()));
}

#[test]
fn binary_operators() {
    assert_eq!(error("fn f() -> type { 1 + \"a\" }"), mismatch("Int or Float", "Int and String"));
    assert_eq!(error("fn f() -> type { 1 < \"a\" }"), mismatch("Int", "String"));
    assert_eq!(error("fn f() -> type { 1 && 2 }"), mismatch("Bool", "Int and Int"));
    assert_eq!(
        error("fn f() -> type { 1 & \"s\" }"),
        TypeError::InvalidOperand { op: "BitAnd".to_string(), operand_type: "Int and String".to_string() }
    );
    assert_eq!(
        error("fn f() -> type { 1 = 2 }"),
        TypeError::NotAType("Invalid assignment target".to_string())
    );
    assert_eq!(check("fn f() -> type { 1 == \"x\" }").1, Ok(()));
    assert_eq!(check("fn f(a: type) -> type { a = 3 * 4 % 5 / 6 - 7 | 8 }").1, Ok(()));
}

#[test]
fn unary_operators() {
    assert_eq!(
        error("fn f() -> type { -\"s\" }"),
        TypeError::InvalidOperand { op: "-".to_string(), operand_type: "String".to_string() }
    );
    assert_eq!(
        error("fn f() -> type { !1 }"),
        TypeError::InvalidOperand { op: "!".to_string(), operand_type: "Int".to_string() }
    );
    assert_eq!(check("fn f() -> type { -1 }").1, Ok(()));
}

#[test]
fn conditions_must_be_bool() {
    assert_eq!(error("fn f() -> type { if 1 { 2 } }"), mismatch("Bool", "Int"));
    assert_eq!(error("fn f() -> type { while 1 { } }"), mismatch("Bool", "Int"));
    assert_eq!(
        error("fn f() -> type { if 1 == 1 { 2 } else { \"s\" } }"),
        mismatch("Int", "String")
    );
}

#[test]
fn for_ranges_must_be_int() {
    assert_eq!(error("fn f() -> type { for i in 0..\"x\" { } }"), mismatch("Int", "Int and String"));
    assert_eq!(check("fn f() -> type { for i in 0..10 { i; } }").1, Ok(()));
}

#[test]
fn declarations_check_their_declared_type() {
    assert_eq!(error("fn f() -> type { let x: type = \"s\"; }"), mismatch("Int", "String"));
    assert_eq!(error("fn f() -> type { const c: String = 1; }"), mismatch("String", "Int"));
    assert_eq!(check("fn f() -> type { let mut x = 1; const c: type = x; }").1, Ok(()));
}

#[test]
fn field_access() {
    assert_eq!(check("struct P { x: type } fn f(p: P) -> type { return p.x }").1, Ok(()));
    assert_eq!(
        error("struct P { x: type } fn f(p: P) -> type { return p.z }"),
        TypeError::FieldNotFound { struct_name: "P".to_string(), field: "z".to_string() }
    );
    assert_eq!(
        error("fn f(a: type) -> type { return a.x }"),
        TypeError::NotAType("Cannot access field on Int".to_string())
    );
    assert_eq!(
        error("fn f(p: Q) -> type { return p.x }"),
        TypeError::UndefinedVariable("Q".to_string())
    );
}

fn fn_item(name: &str, ret: Type, body: Vec<Stmt>) -> Item {
    Item::Fn { name: name.to_string(), params: vec![], ret, body: Expr::Block(body) }
}

fn struct_p() -> Item {
    Item::Struct { name: "P".to_string(), fields: vec![("x".to_string(), int_type())] }
}

fn init(name: &str, fields: Vec<(&str, Expr)>) -> Expr {
    Expr::StructInit(
        name.to_string(),
        fields.into_iter().map(|(f, e)| (f.to_string(), e)).collect(),
    )
}

#[test]
fn struct_literals() {
    let mut tc = TypeChecker::new();
    let ok = vec![
        struct_p(),
        fn_item(
            "f",
            Type::Struct("P".to_string()),
            vec![Stmt::Expr(init("P", vec![("x", Expr::IntLiteral(1))]))],
        ),
    ];
    assert_eq!(tc.check_items(&ok), Ok(()));

    let mut tc = TypeChecker::new();
    let bad_field = vec![
        struct_p(),
        fn_item("f", int_type(), vec![Stmt::Expr(init("P", vec![("y", Expr::IntLiteral(1))]))]),
    ];
    assert_eq!(
        tc.check_items(&bad_field),
        Err(TypeError::FieldNotFound { struct_name: "P".to_string(), field: "y".to_string() })
    );

    let mut tc = TypeChecker::new();
    let bad_type = vec![
        struct_p(),
        fn_item(
            "f",
            int_type(),
            vec![Stmt::Expr(init("P", vec![("x", Expr::StringLiteral("s".to_string()))]))],
        ),
    ];
    assert_eq!(tc.check_items(&bad_type), Err(mismatch("Int", "String")));

    let mut tc = TypeChecker::new();
    let unknown = vec![fn_item("f", int_type(), vec![Stmt::Expr(init("Q", vec![]))])];
    assert_eq!(
        tc.check_items(&unknown),
        Err(TypeError::UndefinedVariable("Unknown struct: Q".to_string()))
    );
}

#[test]
fn unknown_unary_operators() {
    let mut tc = TypeChecker::new();
    let prog = vec![fn_item(
        "f",
        int_type(),
        vec![Stmt::Expr(Expr::UnaryOp(UnaryOp::Deref, Box::new(Expr::IntLiteral(1))))],
    )];
    assert_eq!(
        tc.check_items(&prog),
        Err(TypeError::NotAType("Unknown unary op: Deref".to_string()))
    );
}

#[test]
fn reassignment_changes_a_variable_type() {
    let mut tc = TypeChecker::new();
    let prog = vec![fn_item(
        "f",
        Type::Prim(PrimType::String),
        vec![
            Stmt::Let("x".to_string(), None, Expr::IntLiteral(1)),
            Stmt::Mut("x".to_string(), Expr::StringLiteral("s".to_string())),
            Stmt::Expr(Expr::Ident("x".to_string())),
        ],
    )];
    assert_eq!(tc.check_items(&prog), Ok(()));

    let mut tc = TypeChecker::new();
    let prog = vec![fn_item("f", int_type(), vec![Stmt::Mut("z".to_string(), Expr::IntLiteral(1))])];
    assert_eq!(tc.check_items(&prog), Err(TypeError::UndefinedVariable("z".to_string())));
}

#[test]
fn checking_stops_at_the_first_error() {
    let (tc, r) = check("fn f() -> type { x } fn g() -> type { 1 }");
    assert_eq!(r, Err(TypeError::UndefinedVariable("x".to_string())));
    assert!(!tc.functions.contains_key(&"g".to_string()));
}

#[test]
fn type_texts() {
    assert_eq!(int_type().to_string(), "Int");
    assert_eq!(Type::Prim(PrimType::Float64).to_string(), "Float64");
    assert_eq!(Type::Struct("S".to_string()).to_string(), "S");
    assert_eq!(
        Type::Fn(Box::new(int_type()), vec![Type::Struct("S\"q".to_string()), Type::Unit]).to_string(),
        "fn(Prim(Int)) -> [Struct(\"S\\\"q\"), Unit]"
    );
    assert_eq!(Type::ForeignPtr(Box::new(Type::Prim(PrimType::Bool))).to_string(), "*Prim(Bool)");
    assert_eq!(
        Type::Slice(Box::new(Type::Struct("S".to_string()))).to_string(),
        "[Struct(\"S\")]"
    );
    assert_eq!(
        Type::Ptr(Box::new(Type::Slice(Box::new(Type::Unit)))).to_string(),
        "*Slice(Unit)"
    );
    assert_eq!(Type::Unit.to_string(), "()");
    assert_eq!(Type::Fn(Box::new(Type::Unit), vec![]).to_string(), "fn(Unit) -> []");
}

#[test]
fn error_texts() {
    assert_eq!(TypeError::UndefinedVariable("x".to_string()).to_string(), "Undefined variable: x");
    assert_eq!(TypeError::UndefinedFunction("g".to_string()).to_string(), "Undefined function: g");
    assert_eq!(mismatch("Int", "Bool").to_string(), "Type mismatch: expected Int, got Bool");
    assert_eq!(
        TypeError::InvalidOperand { op: "!".to_string(), operand_type: "Int".to_string() }
            .to_string(),
        "Invalid operand ! for type Int"
    );
    assert_eq!(
        TypeError::FieldNotFound { struct_name: "P".to_string(), field: "z".to_string() }
            .to_string(),
        "Field z not found in struct P"
    );
    assert_eq!(TypeError::NotAType("odd".to_string()).to_string(), "odd");
}

#[test]
fn arithmetic_takes_two_ints_or_two_floats() {
    assert_eq!(check("fn f() -> Float { return 1.5 * 2.5 - 0.5; }").1, Ok(()));
    assert_eq!(check("fn f() -> Int { return 7 % 2; }").1, Ok(()));
    assert_eq!(error("fn f() -> type { 1 + 2.5 }"), mismatch("Int or Float", "Int and Float"));
    assert_eq!(error("fn f() -> type { 1.5 / 2 }"), mismatch("Int or Float", "Float and Int"));
    assert_eq!(error("fn f() -> type { \"a\" - \"b\" }"), mismatch("Int or Float", "String and String"));
}

#[test]
fn checking_two_lists_in_turn_is_checking_them_joined() {
    let a = "struct P { x: Int } fn f(p: P) -> Int { return p.x; }";
    let b = "fn g(p: P) -> Int { return f(p); } fn h() -> Bool { return 1 < 2; }";
    let mut one = TypeChecker::new();
    let first = one.check_items(&items(a));
    let second = one.check_items(&items(b));
    let mut both = TypeChecker::new();
    let joined = both.check_items(&items(&format!("{} {}", a, b)));
    assert_eq!(first, Ok(()));
    assert_eq!(second, joined);
    assert_eq!(joined, Ok(()));
    assert_eq!(one.types.len(), both.types.len());
    for name in ["f", "g", "h"] {
        assert!(one.functions.contains_key(&name.to_string()));
        assert!(both.functions.contains_key(&name.to_string()));
    }
    assert!(both.structs.contains_key(&"P".to_string()));
    // An error in the first list stops the fold there.
    let mut stopped = TypeChecker::new();
    let r = stopped.check_items(&items("fn bad() -> Int { return y; } fn later() -> Int { return 1; }"));
    assert_eq!(r, Err(TypeError::UndefinedVariable("y".to_string())));
    assert!(!stopped.functions.contains_key(&"later".to_string()));
}

#[test]
fn a_checker_without_scopes_checks_items() {
    let mut tc = TypeChecker::new();
    tc.types.clear();
    assert_eq!(tc.check_items(&items("struct S { a: Int } fn f(x: Int) -> Int { return x; }")), Ok(()));
    assert_eq!(tc.types.len(), 0);
    assert!(tc.functions.contains_key(&"f".to_string()));
    assert!(tc.structs.contains_key(&"S".to_string()));
}
