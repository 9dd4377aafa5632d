use rustic::ast::{BinOp, Expr, Item, Stmt, UnaryOp};
use rustic::interp::{
    eval_expr, eval_expr_with_depth, eval_item, eval_stmt, value_eq, Env, EvalResult, FloatOp, Value,
};
use rustic::lexer::tokenize;
use rustic::names::NameMap;
use rustic::parser::Parser;

fn floats(op: FloatOp) -> u64 {
    let f = f64::from_bits;
    match op {
        FloatOp::Parse(s) => s.parse::<f64>().unwrap().to_bits(),
        FloatOp::TextLen(a) => format!("{:?}", f(a)).chars().count() as u64,
        FloatOp::TextChar(a, i) => format!("{:?}", f(a)).chars().nth(i as usize).map_or(0, u64::from),
        FloatOp::Add(a, b) => (f(a) + f(b)).to_bits(),
        FloatOp::Sub(a, b) => (f(a) - f(b)).to_bits(),
        FloatOp::Mul(a, b) => (f(a) * f(b)).to_bits(),
        FloatOp::Div(a, b) => (f(a) / f(b)).to_bits(),
        FloatOp::Neg(a) => (-f(a)).to_bits(),
        FloatOp::Lt(a, b) => (f(a) < f(b)) as u64,
        FloatOp::Le(a, b) => (f(a) <= f(b)) as u64,
        FloatOp::Gt(a, b) => (f(a) > f(b)) as u64,
        FloatOp::Ge(a, b) => (f(a) >= f(b)) as u64,
        FloatOp::Eq(a, b) => (f(a) == f(b)) as u64,
    }
}

fn new_env() -> Env {
    vec![NameMap::new()]
}

/// Declares every item, then evaluates the body of `main`.
fn run(src: &str) -> Result<Value, String> {
    let items = Parser::new(tokenize(src)).parse(&floats).unwrap();
    let mut env = new_env();
    let mut result = Ok(Value::Undefined);
    for item in &items {
        match item {
            Item::Fn { name, body, .. } if name == "main" => {
                result = eval_expr(body, &mut env, &floats);
            }
            _ => eval_item(item, &mut env).unwrap(),
        }
    }
    result
}

fn int_of(r: Result<Value, String>) -> i64 {
    match r {
        Ok(Value::Int(n)) => n,
        other => panic!("not an integer: {:?}", other),
    }
}

fn bool_of(r: Result<Value, String>) -> bool {
    match r {
        Ok(Value::Bool(b)) => b,
        other => panic!("not a bool: {:?}", other),
    }
}

#[test]
fn arithmetic_and_locals() {
    assert_eq!(int_of(run("fn main() -> type { let x = 2; let y = 3; return x * y + 1 }")), 7);
    assert_eq!(int_of(run("fn main() -> type { 7 / 2 - 7 % 2 }")), 2);
    assert_eq!(int_of(run("fn main() -> type { -7 / 2 }")), -3);
    assert_eq!(int_of(run("fn main() -> type { 6 & 3 | 8 }")), 10);
}

#[test]
fn comparisons_and_logic() {
    assert!(bool_of(run("fn main() -> type { 1 < 2 && 2 <= 2 }")));
    assert!(!bool_of(run("fn main() -> type { 1 > 2 || 2 >= 3 }")));
    assert!(bool_of(run("fn main() -> type { 1 == 1 ^ 1 == 2 }")));
    assert!(bool_of(run("fn main() -> type { \"a\" == \"a\" }")));
    assert!(bool_of(run("fn main() -> type { 1 != 2 }")));
    assert!(!bool_of(run("fn main() -> type { 1 == \"1\" }")));
}

#[test]
fn recursive_functions() {
    let src = "fn fact(n: type) -> type { if n < 2 { 1 } else { n * fact(n - 1) } } \
               fn main() -> type { return fact(10) }";
    assert_eq!(int_of(run(src)), 3628800);
}

#[test]
fn missing_arguments_are_undefined() {
    let src = "fn second(a: type, b: type) -> type { b } fn main() -> type { second(1) }";
    assert!(matches!(run(src), Ok(Value::Undefined)));
}

#[test]
fn while_loops_run_until_the_condition_fails() {
    let src = "fn main() -> type { let i = 0; let s = 0; \
               while i < 5 { s = s + i; i = i + 1; let done = 0; } s }";
    assert_eq!(int_of(run(src)), 10);
    let src = "fn main() -> type { let i = 0; while i < 5 { i = i + 1; } i }";
    assert_eq!(int_of(run(src)), 5);
    let src = "fn main() -> type { let i = 0; while i < 3 { i = i + 1; } }";
    assert!(matches!(run(src), Ok(Value::Undefined)));
}

#[test]
fn a_while_statement_runs_to_the_end() {
    let mut env = new_env();
    env[0].insert("i".to_string(), Value::Int(0));
    let cond = Expr::BinaryOp(
        Box::new(Expr::Ident("i".to_string())),
        BinOp::Lt,
        Box::new(Expr::IntLiteral(3)),
    );
    let step = Expr::Block(vec![Stmt::Expr(Expr::BinaryOp(
        Box::new(Expr::Ident("i".to_string())),
        BinOp::Assign,
        Box::new(Expr::BinaryOp(
            Box::new(Expr::Ident("i".to_string())),
            BinOp::Add,
            Box::new(Expr::IntLiteral(1)),
        )),
    ))]);
    let st = Stmt::While(Box::new(cond), step);
    assert!(matches!(eval_stmt(&st, &mut env, &floats), Ok(EvalResult::Value(Value::Undefined))));
    assert!(matches!(env[0].get(&"i".to_string()), Some(Value::Int(3))));
}

#[test]
fn a_return_in_a_loop_leaves_the_function() {
    let src = "fn f() -> type { let i = 0; while 1 == 1 { i = i + 1; if i == 4 { return i * 10; } } 0 } \
               fn main() -> type { f() }";
    assert_eq!(int_of(run(src)), 40);
    let src = "fn f() -> type { for i in 0..10 { if i == 6 { return i; } } 99 } \
               fn main() -> type { f() }";
    assert_eq!(int_of(run(src)), 6);
}

#[test]
fn for_loops_count_up() {
    let src = "fn main() -> type { let s = 0; for i in 0..5 { s = s + i; } s }";
    assert_eq!(int_of(run(src)), 10);
    let src = "fn main() -> type { let s = 7; for i in 3..3 { s = 0; } s }";
    assert_eq!(int_of(run(src)), 7);
}

#[test]
fn a_return_inside_an_if_leaves_the_function() {
    let src = "fn f() -> type { if 1 < 2 { return 5 } 9 } fn main() -> type { f() }";
    assert_eq!(int_of(run(src)), 5);
    let src = "fn abs(x: type) -> type { if x < 0 { return -x; } return x; } \
               fn main() -> type { abs(-3) + abs(4) }";
    assert_eq!(int_of(run(src)), 7);
}

#[test]
fn runtime_errors() {
    assert_eq!(run("fn main() -> type { x }").unwrap_err(), "Undefined variable: x");
    assert_eq!(run("fn main() -> type { y = 1 }").unwrap_err(), "Undefined variable: y");
    assert_eq!(run("fn main() -> type { g() }").unwrap_err(), "Undefined function: g");
    assert_eq!(run("fn main() -> type { 1 + \"a\" }").unwrap_err(), "Type error in +");
    assert_eq!(run("fn main() -> type { \"a\" % 2 }").unwrap_err(), "Type error in %");
    assert_eq!(run("fn main() -> type { 1 && 2 }").unwrap_err(), "Type error in &&");
    assert_eq!(run("fn main() -> type { !1 }").unwrap_err(), "Type error in !");
    assert_eq!(run("fn main() -> type { -\"a\" }").unwrap_err(), "Type error in -");
    assert_eq!(run("fn main() -> type { if 1 { 2 } }").unwrap_err(), "Condition must be bool");
    assert_eq!(run("fn main() -> type { while 1 { } }").unwrap_err(), "Condition must be bool");
    assert_eq!(run("fn main() -> type { for i in \"a\"..2 { } }").unwrap_err(), "For loop start must be int");
    assert_eq!(run("fn main() -> type { for i in 0..\"b\" { } }").unwrap_err(), "For loop end must be int");
    assert_eq!(run("fn main() -> type { 1 = 2 }").unwrap_err(), "Invalid assignment target");
    assert_eq!(run("fn main() -> type { let a = 1; a.b }").unwrap_err(), "Cannot access field on non-struct");
}

#[test]
fn integer_faults_are_errors() {
    assert_eq!(run("fn main() -> type { 1 / 0 }").unwrap_err(), "attempt to divide by zero");
    assert_eq!(
        run("fn main() -> type { 1 % 0 }").unwrap_err(),
        "attempt to calculate the remainder with a divisor of zero"
    );
    assert_eq!(
        run("fn main() -> type { 9223372036854775807 + 1 }").unwrap_err(),
        "attempt to add with overflow"
    );
    assert_eq!(
        run("fn main() -> type { -9223372036854775807 - 2 }").unwrap_err(),
        "attempt to subtract with overflow"
    );
    assert_eq!(
        run("fn main() -> type { 4294967296 * 4294967296 }").unwrap_err(),
        "attempt to multiply with overflow"
    );
    assert_eq!(
        run("fn main() -> type { let m = -9223372036854775807 - 1; m / -1 }").unwrap_err(),
        "attempt to divide with overflow"
    );
    assert_eq!(
        run("fn main() -> type { let m = -9223372036854775807 - 1; -m }").unwrap_err(),
        "attempt to negate with overflow"
    );
}

#[test]
fn floats_go_through_the_float_function() {
    let src = "fn main() -> type { let x = 99999999999999999999; x + x }";
    match run(src) {
        Ok(Value::Float(bits)) => assert_eq!(f64::from_bits(bits), 2e20),
        other => panic!("{:?}", other),
    }
    let src = "fn main() -> type { let x = 99999999999999999999; x < x * x }";
    assert!(bool_of(run(src)));
    let src = "fn main() -> type { let x = 99999999999999999999; x == x }";
    assert!(bool_of(run(src)));
    let src = "fn main() -> type { let x = 99999999999999999999; x % x }";
    assert_eq!(run(src).unwrap_err(), "Type error in %");
}

fn struct_lit(name: &str, fields: Vec<(&str, Expr)>) -> Expr {
    Expr::StructInit(name.to_string(), fields.into_iter().map(|(f, e)| (f.to_string(), e)).collect())
}

#[test]
fn struct_values() {
    let mut env = new_env();
    let p = struct_lit("P", vec![("x", Expr::IntLiteral(1)), ("y", Expr::IntLiteral(2))]);
    let get_y = Expr::FieldAccess(Box::new(p.clone()), "y".to_string());
    assert!(matches!(eval_expr(&get_y, &mut env, &floats), Ok(Value::Int(2))));
    let get_z = Expr::FieldAccess(Box::new(p.clone()), "z".to_string());
    assert_eq!(eval_expr(&get_z, &mut env, &floats).unwrap_err(), "Field z not found");
    let same = Expr::BinaryOp(Box::new(p.clone()), BinOp::Eq, Box::new(p.clone()));
    assert!(matches!(eval_expr(&same, &mut env, &floats), Ok(Value::Bool(true))));
    let q = struct_lit("P", vec![("x", Expr::IntLiteral(1)), ("y", Expr::IntLiteral(3))]);
    let differ = Expr::BinaryOp(Box::new(p), BinOp::Eq, Box::new(q));
    assert!(matches!(eval_expr(&differ, &mut env, &floats), Ok(Value::Bool(false))));
}

#[test]
fn functions_equal_nothing() {
    let items = Parser::new(tokenize("fn f() -> type { 1 }")).parse(&floats).unwrap();
    let mut env = new_env();
    eval_item(&items[0], &mut env).unwrap();
    let e = Expr::BinaryOp(
        Box::new(Expr::Ident("f".to_string())),
        BinOp::Eq,
        Box::new(Expr::Ident("f".to_string())),
    );
    assert!(matches!(eval_expr(&e, &mut env, &floats), Ok(Value::Bool(false))));
}

#[test]
fn break_and_continue_outside_loops() {
    let mut env = new_env();
    assert_eq!(eval_expr(&Expr::Break, &mut env, &floats).unwrap_err(), "Break outside loop");
    assert_eq!(eval_expr(&Expr::Continue, &mut env, &floats).unwrap_err(), "Continue outside loop");
}

#[test]
fn unknown_unary_operators_are_errors() {
    let mut env = new_env();
    let e = Expr::UnaryOp(UnaryOp::Ref, Box::new(Expr::IntLiteral(1)));
    assert_eq!(eval_expr(&e, &mut env, &floats).unwrap_err(), "Unknown unary op: Ref");
}

#[test]
fn depth_limit() {
    let mut env = new_env();
    assert!(matches!(eval_expr_with_depth(&Expr::IntLiteral(1), &mut env, 50, &floats), Ok(Value::Int(1))));
    assert_eq!(
        eval_expr_with_depth(&Expr::IntLiteral(1), &mut env, 51, &floats).unwrap_err(),
        "Maximum recursion depth exceeded"
    );
}

#[test]
fn statements_report_their_flow() {
    let mut env = new_env();
    let ret = Stmt::Return(Some(Box::new(Expr::IntLiteral(4))));
    assert!(matches!(eval_stmt(&ret, &mut env, &floats), Ok(EvalResult::Return(Value::Int(4)))));
    let decl = Stmt::Let("v".to_string(), None, Expr::IntLiteral(3));
    assert!(matches!(eval_stmt(&decl, &mut env, &floats), Ok(EvalResult::Value(Value::Undefined))));
    assert!(matches!(env[0].get(&"v".to_string()), Some(Value::Int(3))));
    let set = Stmt::Mut("v".to_string(), Expr::IntLiteral(8));
    assert!(matches!(eval_stmt(&set, &mut env, &floats), Ok(EvalResult::Value(Value::Undefined))));
    assert!(matches!(env[0].get(&"v".to_string()), Some(Value::Int(8))));
}

#[test]
fn a_block_closes_its_scope_unless_it_fails() {
    let mut env = new_env();
    let ok = Expr::Block(vec![Stmt::Let("t".to_string(), None, Expr::IntLiteral(1))]);
    assert!(matches!(eval_expr(&ok, &mut env, &floats), Ok(Value::Undefined)));
    assert_eq!(env.len(), 1);
    assert!(env[0].get(&"t".to_string()).is_none());
    let bad = Expr::Block(vec![Stmt::Expr(Expr::Ident("nope".to_string()))]);
    assert!(eval_expr(&bad, &mut env, &floats).is_err());
    assert_eq!(env.len(), 2);
}

#[test]
fn calls_leave_the_callers_scopes_alone() {
    let src = "fn set() -> type { let g = 5; g } fn main() -> type { let g = 1; set(); g }";
    assert_eq!(int_of(run(src)), 1);
}

#[test]
fn value_equality_is_symmetric() {
    let p = Value::Struct("P".to_string(), vec![("x".to_string(), Value::Int(1))]);
    let q = Value::Struct("P".to_string(), vec![("x".to_string(), Value::Int(2))]);
    let r = Value::Struct("P".to_string(), vec![("x".to_string(), Value::Int(1))]);
    let f = Value::Float(1.5f64.to_bits());
    let g = Value::Float(1.5f64.to_bits());
    let pairs = [(&p, &q), (&p, &r), (&f, &g), (&p, &f), (&Value::Undefined, &Value::Undefined)];
    for (a, b) in pairs {
        assert_eq!(value_eq(a, b, &floats), value_eq(b, a, &floats));
    }
    assert!(value_eq(&p, &r, &floats));
    assert!(!value_eq(&p, &q, &floats));
    assert!(value_eq(&f, &g, &floats));
    assert!(!value_eq(&Value::Int(1), &Value::Bool(true), &floats));
}

#[test]
fn declaring_a_struct_or_import_needs_no_scope() {
    let items = Parser::new(tokenize("struct S { a: Int } import \"m\";")).parse(&floats).unwrap();
    let mut env: Env = Vec::new();
    for item in &items {
        assert_eq!(eval_item(item, &mut env), Ok(()));
    }
    assert!(env.is_empty());
}

#[test]
fn an_empty_environment_serves_what_declares_nothing() {
    let mut env: Env = Vec::new();
    assert!(matches!(eval_expr(&Expr::IntLiteral(5), &mut env, &floats), Ok(Value::Int(5))));
    let block = Expr::Block(vec![
        Stmt::Let("t".to_string(), None, Expr::IntLiteral(2)),
        Stmt::Expr(Expr::BinaryOp(
            Box::new(Expr::Ident("t".to_string())),
            BinOp::Mul,
            Box::new(Expr::IntLiteral(21)),
        )),
    ]);
    assert!(matches!(eval_expr(&block, &mut env, &floats), Ok(Value::Int(42))));
    let set = Stmt::Mut("v".to_string(), Expr::IntLiteral(8));
    assert!(matches!(eval_stmt(&set, &mut env, &floats), Ok(EvalResult::Value(Value::Undefined))));
    assert!(env.is_empty());
    assert_eq!(eval_expr(&Expr::Ident("v".to_string()), &mut env, &floats).unwrap_err(), "Undefined variable: v");
}
