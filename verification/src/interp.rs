//! A tree-walking interpreter.
//!
//! Evaluation is specified by [`ev_expr`] and [`ev_stmt`]: functions from
//! an environment (a stack of scopes, innermost last) and a piece of syntax
//! to the environment afterwards and a result. Floating-point work is done
//! by a function the caller supplies, on IEEE-754 bit patterns; the
//! specification reads its results through [`float_of`].
//!
//! Loops and calls draw on a budget: a call runs its body, and an iteration
//! its condition and body, with one unit less. The public functions start
//! from the largest budget there is. Where integer arithmetic would
//! overflow or divide by zero, evaluation stops with an error that names
//! the failed operation.
//!
//! A `return` leaves the function it is in, through the blocks, branches
//! and loops around it; a loop runs until its condition fails, and ends
//! early only on a `return` (or, in a `while` expression, a `break`).

use vstd::prelude::*;
use crate::ast::{BinOp, Expr, ExprV, Item, ItemV, Stmt, StmtV, UnaryOp, copy_expr, expr_view, exprs_view, inits_view, stmts_view};
use crate::parser::agrees;
use crate::names::{DeepCopy, NameMap};
use crate::text::{push_text, text};
use crate::type_check::unop_name;

verus! {

broadcast use vstd::string::group_string_axioms;

// ----- values ---------------------------------------------------------------

/// A run-time value. A float is held as the bit pattern of an `f64`.
#[derive(Debug)]
pub enum Value {
    Int(i64),
    Float(u64),
    String(String),
    Bool(bool),
    Struct(String, Vec<(String, Value)>),
    Func(Vec<String>, Box<Expr>, Vec<String>),
    Undefined,
    Break,
    Continue,
}

/// The view of a [`Value`].
pub enum ValueV {
    Int(i64),
    Float(u64),
    String(Seq<char>),
    Bool(bool),
    Struct(Seq<char>, Seq<(Seq<char>, ValueV)>),
    Func(Seq<Seq<char>>, ExprV, Seq<Seq<char>>),
    Undefined,
    Break,
    Continue,
}

/// Views of a list of strings.
pub open spec fn strings_view(ss: Seq<String>) -> Seq<Seq<char>> {
    Seq::new(ss.len(), |k: int| ss[k]@)
}

pub open spec fn value_view(v: Value) -> ValueV
    decreases v,
{
    match v {
        Value::Int(n) => ValueV::Int(n),
        Value::Float(b) => ValueV::Float(b),
        Value::String(s) => ValueV::String(s@),
        Value::Bool(b) => ValueV::Bool(b),
        Value::Struct(n, fs) => ValueV::Struct(n@, fields_view(fs@)),
        Value::Func(ps, body, caps) => ValueV::Func(strings_view(ps@), expr_view(*body), strings_view(caps@)),
        Value::Undefined => ValueV::Undefined,
        Value::Break => ValueV::Break,
        Value::Continue => ValueV::Continue,
    }
}

/// Views of the fields of a struct value.
pub open spec fn fields_view(fs: Seq<(String, Value)>) -> Seq<(Seq<char>, ValueV)>
    decreases fs,
{
    Seq::new(
        fs.len(),
        |k: int|
            if 0 <= k < fs.len() {
                (fs[k].0@, value_view(fs[k].1))
            } else {
                (Seq::empty(), ValueV::Undefined)
            },
    )
}

impl View for Value {
    type V = ValueV;

    open spec fn view(&self) -> ValueV {
        value_view(*self)
    }
}

/// What a statement leaves for the block around it.
#[derive(Debug)]
pub enum EvalResult {
    Value(Value),
    Return(Value),
    Break,
    Continue,
}

/// The view of an [`EvalResult`].
pub enum FlowV {
    Value(ValueV),
    Return(ValueV),
    Break,
    Continue,
}

impl View for EvalResult {
    type V = FlowV;

    open spec fn view(&self) -> FlowV {
        match self {
            EvalResult::Value(v) => FlowV::Value(v@),
            EvalResult::Return(v) => FlowV::Return(v@),
            EvalResult::Break => FlowV::Break,
            EvalResult::Continue => FlowV::Continue,
        }
    }
}

/// The variables in scope: one map per scope, innermost last.
pub type Env = Vec<NameMap<Value>>;

/// The view of an [`Env`].
pub open spec fn env_view(env: Seq<NameMap<Value>>) -> Seq<Map<Seq<char>, ValueV>> {
    env.map_values(|m: NameMap<Value>| m@)
}

// ----- floating point -------------------------------------------------------

/// Floating-point work, on the bit patterns of `f64` values. The answer is
/// a bit pattern, for a comparison 1 (true) or 0 (false), and for the text
/// of a float a length or a character code.
#[derive(Debug)]
pub enum FloatOp {
    /// The value of a number literal, read as `str::parse::<f64>` reads it.
    Parse(String),
    /// The length, in characters, of what `Debug` prints for a float.
    TextLen(u64),
    /// The code of the character at an index of what `Debug` prints for a
    /// float.
    TextChar(u64, u64),
    Add(u64, u64),
    Sub(u64, u64),
    Mul(u64, u64),
    Div(u64, u64),
    Neg(u64),
    Lt(u64, u64),
    Le(u64, u64),
    Gt(u64, u64),
    Ge(u64, u64),
    Eq(u64, u64),
}

/// The view of a [`FloatOp`].
pub enum FloatOpV {
    Parse(Seq<char>),
    TextLen(u64),
    TextChar(u64, u64),
    Add(u64, u64),
    Sub(u64, u64),
    Mul(u64, u64),
    Div(u64, u64),
    Neg(u64),
    Lt(u64, u64),
    Le(u64, u64),
    Gt(u64, u64),
    Ge(u64, u64),
    Eq(u64, u64),
}

impl View for FloatOp {
    type V = FloatOpV;

    open spec fn view(&self) -> FloatOpV {
        match self {
            FloatOp::Parse(s) => FloatOpV::Parse(s@),
            FloatOp::TextLen(a) => FloatOpV::TextLen(*a),
            FloatOp::TextChar(a, i) => FloatOpV::TextChar(*a, *i),
            FloatOp::Add(a, b) => FloatOpV::Add(*a, *b),
            FloatOp::Sub(a, b) => FloatOpV::Sub(*a, *b),
            FloatOp::Mul(a, b) => FloatOpV::Mul(*a, *b),
            FloatOp::Div(a, b) => FloatOpV::Div(*a, *b),
            FloatOp::Neg(a) => FloatOpV::Neg(*a),
            FloatOp::Lt(a, b) => FloatOpV::Lt(*a, *b),
            FloatOp::Le(a, b) => FloatOpV::Le(*a, *b),
            FloatOp::Gt(a, b) => FloatOpV::Gt(*a, *b),
            FloatOp::Ge(a, b) => FloatOpV::Ge(*a, *b),
            FloatOp::Eq(a, b) => FloatOpV::Eq(*a, *b),
        }
    }
}

/// What the float function answers to `op`, when it answers one way.
pub open spec fn float_of<F: Fn(FloatOp) -> u64>(f: F, op: FloatOpV) -> u64 {
    (choose|p: (FloatOp, u64)| p.0@ == op && #[trigger] call_ensures(f, (p.0,), p.1)).1
}

/// The float function can be asked anything, answers each question (up to
/// views) one way, and, as `f64`'s `==` does, finds `x == y` exactly when
/// it finds `y == x`.
pub open spec fn floats_ok<F: Fn(FloatOp) -> u64>(f: F) -> bool {
    &&& forall|x: FloatOp| #[trigger] call_requires(f, (x,))
    &&& forall|x: FloatOp, y: FloatOp, r: u64, s: u64|
        x@ == y@ && #[trigger] call_ensures(f, (x,), r) && #[trigger] call_ensures(f, (y,), s) ==> r == s
    &&& float_eq_symmetric(f)
}

// ----- the rules ------------------------------------------------------------

/// The outcome of evaluating: the environment afterwards, and a result.
pub struct Evaled<T> {
    pub env: Seq<Map<Seq<char>, ValueV>>,
    pub res: Result<T, Seq<char>>,
}

pub open spec fn ok_in<T>(env: Seq<Map<Seq<char>, ValueV>>, v: T) -> Evaled<T> {
    Evaled { env, res: Ok(v) }
}

pub open spec fn err_in<T>(env: Seq<Map<Seq<char>, ValueV>>, m: Seq<char>) -> Evaled<T> {
    Evaled { env, res: Err(m) }
}

/// The message when the budget of a loop or call is spent.
pub open spec fn budget_msg() -> Seq<char> {
    "Evaluation step limit reached"@
}

/// The value of `name` in the innermost scope that has it.
pub open spec fn lookup_val(env: Seq<Map<Seq<char>, ValueV>>, name: Seq<char>) -> Option<ValueV>
    decreases env.len(),
{
    if env.len() == 0 {
        None
    } else if env.last().contains_key(name) {
        Some(env.last()[name])
    } else {
        lookup_val(env.drop_last(), name)
    }
}

/// The environment after the innermost scope that has `name` sets it to
/// `v`; `None` when no scope has it.
pub open spec fn assign_val(env: Seq<Map<Seq<char>, ValueV>>, name: Seq<char>, v: ValueV) -> Option<
    Seq<Map<Seq<char>, ValueV>>,
>
    decreases env.len(),
{
    if env.len() == 0 {
        None
    } else if env.last().contains_key(name) {
        Some(env.drop_last().push(env.last().insert(name, v)))
    } else {
        match assign_val(env.drop_last(), name, v) {
            Some(inner) => Some(inner.push(env.last())),
            None => None,
        }
    }
}

/// The environment with `name` set to `v` in the innermost scope.
pub open spec fn bind(env: Seq<Map<Seq<char>, ValueV>>, name: Seq<char>, v: ValueV) -> Seq<
    Map<Seq<char>, ValueV>,
> {
    env.drop_last().push(env.last().insert(name, v))
}

/// The environment without its innermost scope (unchanged when empty).
pub open spec fn pop_env(env: Seq<Map<Seq<char>, ValueV>>) -> Seq<Map<Seq<char>, ValueV>> {
    if env.len() > 0 {
        env.drop_last()
    } else {
        env
    }
}

/// The parameters and body of the function `name` names in the innermost
/// scope where it names a function.
pub open spec fn find_func(env: Seq<Map<Seq<char>, ValueV>>, name: Seq<char>) -> Option<
    (Seq<Seq<char>>, ExprV),
>
    decreases env.len(),
{
    if env.len() == 0 {
        None
    } else if env.last().contains_key(name) && env.last()[name] is Func {
        Some((env.last()[name]->Func_0, env.last()[name]->Func_1))
    } else {
        find_func(env.drop_last(), name)
    }
}

/// The scope of a call: the first `n` parameters bound in order to the
/// arguments, `Undefined` past the last argument.
pub open spec fn bind_params(params: Seq<Seq<char>>, vals: Seq<ValueV>, n: int) -> Map<
    Seq<char>,
    ValueV,
>
    decreases n,
{
    if n <= 0 {
        Map::empty()
    } else {
        bind_params(params, vals, n - 1).insert(
            params[n - 1],
            if n - 1 < vals.len() {
                vals[n - 1]
            } else {
                ValueV::Undefined
            },
        )
    }
}

/// The first field named `name`.
pub open spec fn field_of(fs: Seq<(Seq<char>, ValueV)>, name: Seq<char>) -> Option<ValueV>
    decreases fs.len(),
{
    if fs.len() == 0 {
        None
    } else if fs[0].0 == name {
        Some(fs[0].1)
    } else {
        field_of(fs.drop_first(), name)
    }
}

/// Equality of values: structs by name and fields in order, floats as
/// floats; functions are equal to nothing.
pub open spec fn val_eq<F: Fn(FloatOp) -> u64>(f: F, a: ValueV, b: ValueV) -> bool
    decreases a, 0int,
{
    match (a, b) {
        (ValueV::Int(x), ValueV::Int(y)) => x == y,
        (ValueV::Float(x), ValueV::Float(y)) => float_of(f, FloatOpV::Eq(x, y)) != 0,
        (ValueV::String(x), ValueV::String(y)) => x == y,
        (ValueV::Bool(x), ValueV::Bool(y)) => x == y,
        (ValueV::Struct(n1, f1), ValueV::Struct(n2, f2)) => n1 == n2 && f1.len() == f2.len()
            && fields_eq(f, f1, f2, 0),
        (ValueV::Undefined, ValueV::Undefined) => true,
        (ValueV::Break, ValueV::Break) => true,
        (ValueV::Continue, ValueV::Continue) => true,
        _ => false,
    }
}

/// Whether the fields from the `i`-th on are equal, name and value.
pub open spec fn fields_eq<F: Fn(FloatOp) -> u64>(
    f: F,
    f1: Seq<(Seq<char>, ValueV)>,
    f2: Seq<(Seq<char>, ValueV)>,
    i: int,
) -> bool
    decreases f1, f1.len() - i,
{
    if 0 <= i < f1.len() && i < f2.len() {
        f1[i].0 == f2[i].0 && val_eq(f, f1[i].1, f2[i].1) && fields_eq(f, f1, f2, i + 1)
    } else {
        true
    }
}

/// Whether two values are of one variant.
pub open spec fn same_variant(a: ValueV, b: ValueV) -> bool {
    match (a, b) {
        (ValueV::Int(_), ValueV::Int(_)) => true,
        (ValueV::Float(_), ValueV::Float(_)) => true,
        (ValueV::String(_), ValueV::String(_)) => true,
        (ValueV::Bool(_), ValueV::Bool(_)) => true,
        (ValueV::Struct(_, _), ValueV::Struct(_, _)) => true,
        (ValueV::Func(_, _, _), ValueV::Func(_, _, _)) => true,
        (ValueV::Undefined, ValueV::Undefined) => true,
        (ValueV::Break, ValueV::Break) => true,
        (ValueV::Continue, ValueV::Continue) => true,
        _ => false,
    }
}

/// Whether the float function's equality answers the same for `x == y`
/// and `y == x`.
pub open spec fn float_eq_symmetric<F: Fn(FloatOp) -> u64>(f: F) -> bool {
    forall|x: u64, y: u64|
        (#[trigger] float_of(f, FloatOpV::Eq(x, y)) != 0) == (float_of(f, FloatOpV::Eq(y, x)) != 0)
}

/// Value equality is symmetric; equal values are of one variant, and a
/// function equals nothing.
pub proof fn lemma_val_eq_symmetric<F: Fn(FloatOp) -> u64>(f: F, a: ValueV, b: ValueV)
    requires
        floats_ok(f),
    ensures
        val_eq(f, a, b) == val_eq(f, b, a),
        val_eq(f, a, b) ==> same_variant(a, b) && !(a is Func),
    decreases a, 0int,
{
    match (a, b) {
        (ValueV::Float(x), ValueV::Float(y)) => {
            assert((float_of(f, FloatOpV::Eq(x, y)) != 0) == (float_of(f, FloatOpV::Eq(y, x)) != 0));
        },
        (ValueV::Struct(n1, f1), ValueV::Struct(n2, f2)) => {
            if f1.len() == f2.len() {
                lemma_fields_eq_symmetric(f, f1, f2, 0);
            }
        },
        _ => {},
    }
}

/// [`lemma_val_eq_symmetric`] for the fields of two structs.
pub proof fn lemma_fields_eq_symmetric<F: Fn(FloatOp) -> u64>(
    f: F,
    f1: Seq<(Seq<char>, ValueV)>,
    f2: Seq<(Seq<char>, ValueV)>,
    i: int,
)
    requires
        floats_ok(f),
        f1.len() == f2.len(),
    ensures
        fields_eq(f, f1, f2, i) == fields_eq(f, f2, f1, i),
    decreases f1, f1.len() - i,
{
    if 0 <= i < f1.len() {
        assert(decreases_to!(f1 => f1[i]));
        assert(decreases_to!(f1[i] => f1[i].1));
        lemma_val_eq_symmetric(f, f1[i].1, f2[i].1);
        lemma_fields_eq_symmetric(f, f1, f2, i + 1);
    }
}

/// `a op b` on integers; `None` for an operator integers do not take.
pub open spec fn int_binop(op: BinOp, a: i64, b: i64) -> Option<Result<ValueV, Seq<char>>> {
    match op {
        BinOp::Add => Some(
            match a.checked_add(b) {
                Some(c) => Ok(ValueV::Int(c)),
                None => Err("attempt to add with overflow"@),
            },
        ),
        BinOp::Sub => Some(
            match a.checked_sub(b) {
                Some(c) => Ok(ValueV::Int(c)),
                None => Err("attempt to subtract with overflow"@),
            },
        ),
        BinOp::Mul => Some(
            match a.checked_mul(b) {
                Some(c) => Ok(ValueV::Int(c)),
                None => Err("attempt to multiply with overflow"@),
            },
        ),
        BinOp::Div => Some(
            if b == 0 {
                Err("attempt to divide by zero"@)
            } else {
                match a.checked_div(b) {
                    Some(c) => Ok(ValueV::Int(c)),
                    None => Err("attempt to divide with overflow"@),
                }
            },
        ),
        BinOp::Mod => Some(
            if b == 0 {
                Err("attempt to calculate the remainder with a divisor of zero"@)
            } else {
                match a.checked_rem(b) {
                    Some(c) => Ok(ValueV::Int(c)),
                    None => Err("attempt to calculate the remainder with overflow"@),
                }
            },
        ),
        BinOp::Lt => Some(Ok(ValueV::Bool(a < b))),
        BinOp::Le => Some(Ok(ValueV::Bool(a <= b))),
        BinOp::Gt => Some(Ok(ValueV::Bool(a > b))),
        BinOp::Ge => Some(Ok(ValueV::Bool(a >= b))),
        BinOp::BitAnd => Some(Ok(ValueV::Int(a & b))),
        BinOp::BitOr => Some(Ok(ValueV::Int(a | b))),
        _ => None,
    }
}

/// `a op b` on floats; `None` for an operator floats do not take.
pub open spec fn float_binop<F: Fn(FloatOp) -> u64>(f: F, op: BinOp, a: u64, b: u64) -> Option<ValueV> {
    match op {
        BinOp::Add => Some(ValueV::Float(float_of(f, FloatOpV::Add(a, b)))),
        BinOp::Sub => Some(ValueV::Float(float_of(f, FloatOpV::Sub(a, b)))),
        BinOp::Mul => Some(ValueV::Float(float_of(f, FloatOpV::Mul(a, b)))),
        BinOp::Div => Some(ValueV::Float(float_of(f, FloatOpV::Div(a, b)))),
        BinOp::Lt => Some(ValueV::Bool(float_of(f, FloatOpV::Lt(a, b)) != 0)),
        BinOp::Le => Some(ValueV::Bool(float_of(f, FloatOpV::Le(a, b)) != 0)),
        BinOp::Gt => Some(ValueV::Bool(float_of(f, FloatOpV::Gt(a, b)) != 0)),
        BinOp::Ge => Some(ValueV::Bool(float_of(f, FloatOpV::Ge(a, b)) != 0)),
        _ => None,
    }
}

/// The symbol an operator's type errors name.
pub open spec fn op_symbol(op: BinOp) -> Seq<char> {
    match op {
        BinOp::Add => "+"@,
        BinOp::Sub => "-"@,
        BinOp::Mul => "*"@,
        BinOp::Div => "/"@,
        BinOp::Mod => "%"@,
        BinOp::Lt => "<"@,
        BinOp::Le => "<="@,
        BinOp::Gt => ">"@,
        BinOp::Ge => ">="@,
        BinOp::And => "&&"@,
        BinOp::Or => "||"@,
        BinOp::Xor => "^"@,
        BinOp::BitAnd => "&"@,
        BinOp::BitOr => "|"@,
        BinOp::Eq => "=="@,
        BinOp::Ne => "!="@,
        BinOp::Assign => "="@,
    }
}

/// The value of `l op r` for an operator other than `=`.
pub open spec fn binop_value<F: Fn(FloatOp) -> u64>(f: F, op: BinOp, l: ValueV, r: ValueV) -> Result<
    ValueV,
    Seq<char>,
> {
    let type_error = Err("Type error in "@ + op_symbol(op));
    match op {
        BinOp::Eq => Ok(ValueV::Bool(val_eq(f, l, r))),
        BinOp::Ne => Ok(ValueV::Bool(!val_eq(f, l, r))),
        BinOp::And | BinOp::Or | BinOp::Xor => match (l, r) {
            (ValueV::Bool(a), ValueV::Bool(b)) => Ok(
                ValueV::Bool(
                    if op == BinOp::And {
                        a && b
                    } else if op == BinOp::Or {
                        a || b
                    } else {
                        a != b
                    },
                ),
            ),
            _ => type_error,
        },
        _ => match (l, r) {
            (ValueV::Int(a), ValueV::Int(b)) => match int_binop(op, a, b) {
                Some(x) => x,
                None => type_error,
            },
            (ValueV::Float(a), ValueV::Float(b)) => match float_binop(f, op, a, b) {
                Some(x) => Ok(x),
                None => type_error,
            },
            _ => type_error,
        },
    }
}

/// The value of `op v`.
pub open spec fn unop_value<F: Fn(FloatOp) -> u64>(f: F, op: UnaryOp, v: ValueV) -> Result<ValueV, Seq<char>> {
    match op {
        UnaryOp::Neg => match v {
            ValueV::Int(n) => if n == i64::MIN {
                Err("attempt to negate with overflow"@)
            } else {
                Ok(ValueV::Int(-n as i64))
            },
            ValueV::Float(x) => Ok(ValueV::Float(float_of(f, FloatOpV::Neg(x)))),
            _ => Err("Type error in -"@),
        },
        UnaryOp::Not => match v {
            ValueV::Bool(b) => Ok(ValueV::Bool(!b)),
            _ => Err("Type error in !"@),
        },
        _ => Err("Unknown unary op: "@ + unop_name(op)),
    }
}

/// Field `field` of the value `o`.
pub open spec fn field_value(o: ValueV, field: Seq<char>) -> Result<ValueV, Seq<char>> {
    match o {
        ValueV::Struct(_, fs) => match field_of(fs, field) {
            Some(v) => Ok(v),
            None => Err("Field "@ + field + " not found"@),
        },
        _ => Err("Cannot access field on non-struct"@),
    }
}

/// The value an outcome leaves behind: the value, or the value returned;
/// `break` and `continue` leave `Undefined`.
pub open spec fn branch_value(fl: FlowV) -> ValueV {
    match fl {
        FlowV::Value(v) => v,
        FlowV::Return(v) => v,
        _ => ValueV::Undefined,
    }
}

/// A plain value as an outcome.
pub open spec fn val_in(env: Seq<Map<Seq<char>, ValueV>>, v: ValueV) -> Evaled<FlowV> {
    ok_in(env, FlowV::Value(v))
}

/// A computed value, or the error computing it, as an outcome.
pub open spec fn lift(env: Seq<Map<Seq<char>, ValueV>>, r: Result<ValueV, Seq<char>>) -> Evaled<FlowV> {
    match r {
        Ok(v) => val_in(env, v),
        Err(m) => err_in(env, m),
    }
}

/// The value an evaluation gives to whoever asked for a value: a `return`
/// ends there.
pub open spec fn as_value(r: Result<FlowV, Seq<char>>) -> Result<ValueV, Seq<char>> {
    match r {
        Ok(fl) => Ok(branch_value(fl)),
        Err(m) => Err(m),
    }
}

/// Evaluating an expression with budget `fuel`. The outcome is a value, or
/// a `return` on its way out to the function that runs it.
pub open spec fn ev_expr<F: Fn(FloatOp) -> u64>(
    f: F,
    env: Seq<Map<Seq<char>, ValueV>>,
    e: ExprV,
    fuel: nat,
) -> Evaled<FlowV>
    decreases fuel, e, 1int,
{
    match e {
        ExprV::IntLiteral(n) => val_in(env, ValueV::Int(n)),
        ExprV::FloatLiteral(s) => val_in(env, ValueV::Float(float_of(f, FloatOpV::Parse(s)))),
        ExprV::StringLiteral(s) => val_in(env, ValueV::String(s)),
        ExprV::Ident(name) => match lookup_val(env, name) {
            Some(v) => val_in(env, v),
            None => err_in(env, "Undefined variable: "@ + name),
        },
        ExprV::BinaryOp(l, op, r) => {
            let a = ev_expr(f, env, *l, fuel);
            match a.res {
                Err(m) => err_in(a.env, m),
                Ok(FlowV::Value(lv)) => {
                    let b = ev_expr(f, a.env, *r, fuel);
                    match b.res {
                        Err(m) => err_in(b.env, m),
                        Ok(FlowV::Value(rv)) => if op == BinOp::Assign {
                            match *l {
                                ExprV::Ident(name) => match assign_val(b.env, name, rv) {
                                    Some(env2) => val_in(env2, rv),
                                    None => err_in(b.env, "Undefined variable: "@ + name),
                                },
                                _ => err_in(b.env, "Invalid assignment target"@),
                            }
                        } else {
                            lift(b.env, binop_value(f, op, lv, rv))
                        },
                        Ok(fl) => ok_in(b.env, fl),
                    }
                },
                Ok(fl) => ok_in(a.env, fl),
            }
        },
        ExprV::UnaryOp(op, x) => {
            let a = ev_expr(f, env, *x, fuel);
            match a.res {
                Err(m) => err_in(a.env, m),
                Ok(FlowV::Value(v)) => lift(a.env, unop_value(f, op, v)),
                Ok(fl) => ok_in(a.env, fl),
            }
        },
        ExprV::Call(name, args) => {
            let a = ev_args(f, env, args, 0, Seq::empty(), fuel);
            match a.res {
                Err(m) => err_in(a.env, m),
                Ok(Err(v)) => ok_in(a.env, FlowV::Return(v)),
                Ok(Ok(vals)) => match find_func(a.env, name) {
                    Some(pb) => if fuel == 0 {
                        err_in(a.env, budget_msg())
                    } else {
                        let call_env = a.env.push(bind_params(pb.0, vals, pb.0.len() as int));
                        let c = ev_expr(f, call_env, pb.1, (fuel - 1) as nat);
                        match as_value(c.res) {
                            Ok(v) => val_in(a.env, v),
                            Err(m) => err_in(a.env, m),
                        }
                    },
                    None => err_in(a.env, "Undefined function: "@ + name),
                },
            }
        },
        ExprV::StructInit(name, inits) => {
            let a = ev_inits(f, env, inits, 0, Seq::empty(), fuel);
            match a.res {
                Err(m) => err_in(a.env, m),
                Ok(Err(v)) => ok_in(a.env, FlowV::Return(v)),
                Ok(Ok(fs)) => val_in(a.env, ValueV::Struct(name, fs)),
            }
        },
        ExprV::FieldAccess(obj, field) => {
            let a = ev_expr(f, env, *obj, fuel);
            match a.res {
                Err(m) => err_in(a.env, m),
                Ok(FlowV::Value(o)) => lift(a.env, field_value(o, field)),
                Ok(fl) => ok_in(a.env, fl),
            }
        },
        ExprV::Block(stmts) => ev_block(f, env.push(Map::empty()), stmts, 0, ValueV::Undefined, fuel),
        ExprV::If(c, then_s, else_s) => {
            let a = ev_expr(f, env, *c, fuel);
            match a.res {
                Err(m) => err_in(a.env, m),
                Ok(FlowV::Value(ValueV::Bool(true))) => {
                    let b = ev_stmt(f, a.env, *then_s, fuel);
                    match b.res {
                        Err(m) => err_in(b.env, m),
                        Ok(FlowV::Return(v)) => ok_in(b.env, FlowV::Return(v)),
                        Ok(fl) => val_in(b.env, branch_value(fl)),
                    }
                },
                Ok(FlowV::Value(ValueV::Bool(false))) => match else_s {
                    Some(es) => {
                        let b = ev_stmt(f, a.env, *es, fuel);
                        match b.res {
                            Err(m) => err_in(b.env, m),
                            Ok(FlowV::Return(v)) => ok_in(b.env, FlowV::Return(v)),
                            Ok(fl) => val_in(b.env, branch_value(fl)),
                        }
                    },
                    None => val_in(a.env, ValueV::Undefined),
                },
                Ok(FlowV::Value(_)) => err_in(a.env, "Condition must be bool"@),
                Ok(fl) => ok_in(a.env, fl),
            }
        },
        ExprV::While(c, body) => ev_loop(f, env, *c, *body, fuel),
        ExprV::Return(v) => match v {
            Some(x) => {
                let a = ev_expr(f, env, *x, fuel);
                match a.res {
                    Err(m) => err_in(a.env, m),
                    Ok(fl) => ok_in(a.env, FlowV::Return(branch_value(fl))),
                }
            },
            None => ok_in(env, FlowV::Return(ValueV::Undefined)),
        },
        ExprV::Break => err_in(env, "Break outside loop"@),
        ExprV::Continue => err_in(env, "Continue outside loop"@),
    }
}

/// The arguments of a call from the `i`-th on, `acc` the values so far;
/// `Err(v)` when an argument returned `v`.
pub open spec fn ev_args<F: Fn(FloatOp) -> u64>(
    f: F,
    env: Seq<Map<Seq<char>, ValueV>>,
    args: Seq<ExprV>,
    i: int,
    acc: Seq<ValueV>,
    fuel: nat,
) -> Evaled<Result<Seq<ValueV>, ValueV>>
    decreases fuel, args, args.len() - i,
{
    if 0 <= i < args.len() {
        let a = ev_expr(f, env, args[i], fuel);
        match a.res {
            Err(m) => err_in(a.env, m),
            Ok(FlowV::Value(v)) => ev_args(f, a.env, args, i + 1, acc.push(v), fuel),
            Ok(fl) => ok_in(a.env, Err(branch_value(fl))),
        }
    } else {
        ok_in(env, Ok(acc))
    }
}

/// The field initialisers of a struct literal from the `i`-th on; `Err(v)`
/// when one returned `v`.
pub open spec fn ev_inits<F: Fn(FloatOp) -> u64>(
    f: F,
    env: Seq<Map<Seq<char>, ValueV>>,
    inits: Seq<(Seq<char>, ExprV)>,
    i: int,
    acc: Seq<(Seq<char>, ValueV)>,
    fuel: nat,
) -> Evaled<Result<Seq<(Seq<char>, ValueV)>, ValueV>>
    decreases fuel, inits, inits.len() - i,
{
    if 0 <= i < inits.len() {
        let a = ev_expr(f, env, inits[i].1, fuel);
        match a.res {
            Err(m) => err_in(a.env, m),
            Ok(FlowV::Value(v)) => ev_inits(f, a.env, inits, i + 1, acc.push((inits[i].0, v)), fuel),
            Ok(fl) => ok_in(a.env, Err(branch_value(fl))),
        }
    } else {
        ok_in(env, Ok(acc))
    }
}

/// The statements of a block from the `i`-th on, in the block's scope
/// (the innermost), `result` the value of the last statement so far. The
/// block's scope is closed when it ends normally, on `return` (which goes
/// on outward), and on `break` and `continue`.
pub open spec fn ev_block<F: Fn(FloatOp) -> u64>(
    f: F,
    env: Seq<Map<Seq<char>, ValueV>>,
    stmts: Seq<StmtV>,
    i: int,
    result: ValueV,
    fuel: nat,
) -> Evaled<FlowV>
    decreases fuel, stmts, stmts.len() - i,
{
    if 0 <= i < stmts.len() {
        let a = ev_stmt(f, env, stmts[i], fuel);
        match a.res {
            Err(m) => err_in(a.env, m),
            Ok(FlowV::Return(v)) => ok_in(pop_env(a.env), FlowV::Return(v)),
            Ok(FlowV::Value(v)) => ev_block(f, a.env, stmts, i + 1, v, fuel),
            Ok(_) => val_in(pop_env(a.env), result),
        }
    } else {
        val_in(pop_env(env), result)
    }
}

/// A `while` expression: each iteration runs its condition and body with
/// one unit less of budget; it ends when the condition is false, or on
/// `break` or `return`.
pub open spec fn ev_loop<F: Fn(FloatOp) -> u64>(
    f: F,
    env: Seq<Map<Seq<char>, ValueV>>,
    cond: ExprV,
    body: StmtV,
    fuel: nat,
) -> Evaled<FlowV>
    decreases fuel, body, 0int,
{
    if fuel == 0 {
        err_in(env, budget_msg())
    } else {
        let a = ev_expr(f, env, cond, (fuel - 1) as nat);
        match a.res {
            Err(m) => err_in(a.env, m),
            Ok(FlowV::Value(ValueV::Bool(false))) => val_in(a.env, ValueV::Undefined),
            Ok(FlowV::Value(ValueV::Bool(true))) => {
                let b = ev_stmt(f, a.env, body, (fuel - 1) as nat);
                match b.res {
                    Err(m) => err_in(b.env, m),
                    Ok(FlowV::Return(v)) => ok_in(b.env, FlowV::Return(v)),
                    Ok(FlowV::Break) => val_in(b.env, ValueV::Undefined),
                    Ok(_) => ev_loop(f, b.env, cond, body, (fuel - 1) as nat),
                }
            },
            Ok(FlowV::Value(_)) => err_in(a.env, "Condition must be bool"@),
            Ok(fl) => ok_in(a.env, fl),
        }
    }
}

/// Evaluating a statement with budget `fuel`.
pub open spec fn ev_stmt<F: Fn(FloatOp) -> u64>(
    f: F,
    env: Seq<Map<Seq<char>, ValueV>>,
    s: StmtV,
    fuel: nat,
) -> Evaled<FlowV>
    decreases fuel, s, 1int,
{
    match s {
        StmtV::Let(name, _, x) => {
            let a = ev_expr(f, env, x, fuel);
            match a.res {
                Err(m) => err_in(a.env, m),
                Ok(FlowV::Value(v)) => val_in(bind(a.env, name, v), ValueV::Undefined),
                Ok(fl) => ok_in(a.env, fl),
            }
        },
        StmtV::Mut(name, x) => {
            let a = ev_expr(f, env, x, fuel);
            match a.res {
                Err(m) => err_in(a.env, m),
                Ok(FlowV::Value(v)) => val_in(
                    if a.env.len() > 0 {
                        bind(a.env, name, v)
                    } else {
                        a.env
                    },
                    ValueV::Undefined,
                ),
                Ok(fl) => ok_in(a.env, fl),
            }
        },
        StmtV::Const(name, _, x) => {
            let a = ev_expr(f, env, x, fuel);
            match a.res {
                Err(m) => err_in(a.env, m),
                Ok(FlowV::Value(v)) => val_in(bind(a.env, name, v), ValueV::Undefined),
                Ok(fl) => ok_in(a.env, fl),
            }
        },
        StmtV::Expr(x) => ev_expr(f, env, x, fuel),
        StmtV::Return(v) => match v {
            Some(x) => {
                let a = ev_expr(f, env, *x, fuel);
                match a.res {
                    Err(m) => err_in(a.env, m),
                    Ok(fl) => ok_in(a.env, FlowV::Return(branch_value(fl))),
                }
            },
            None => ok_in(env, FlowV::Return(ValueV::Undefined)),
        },
        StmtV::Item(it) => val_in(item_env(env, it), ValueV::Undefined),
        StmtV::For(var, start, end, body) => {
            let a = ev_expr(f, env, *start, fuel);
            match a.res {
                Err(m) => err_in(a.env, m),
                Ok(FlowV::Value(sv)) => {
                    let b = ev_expr(f, a.env, *end, fuel);
                    match b.res {
                        Err(m) => err_in(b.env, m),
                        Ok(FlowV::Value(ev)) => match sv {
                            ValueV::Int(lo) => match ev {
                                ValueV::Int(hi) => ev_for(f, b.env, var, lo as int, hi as int, body, fuel),
                                _ => err_in(b.env, "For loop end must be int"@),
                            },
                            _ => err_in(b.env, "For loop start must be int"@),
                        },
                        Ok(fl) => ok_in(b.env, fl),
                    }
                },
                Ok(fl) => ok_in(a.env, fl),
            }
        },
        StmtV::If(c, then_e, else_e) => {
            let a = ev_expr(f, env, *c, fuel);
            match a.res {
                Err(m) => err_in(a.env, m),
                Ok(FlowV::Value(ValueV::Bool(true))) => ev_expr(f, a.env, then_e, fuel),
                Ok(FlowV::Value(ValueV::Bool(false))) => match else_e {
                    Some(ee) => ev_expr(f, a.env, ee, fuel),
                    None => val_in(a.env, ValueV::Undefined),
                },
                Ok(FlowV::Value(_)) => err_in(a.env, "Condition must be bool"@),
                Ok(fl) => ok_in(a.env, fl),
            }
        },
        StmtV::While(c, body) => ev_while_stmt(f, env, *c, body, fuel),
    }
}

/// A `for` statement from `i` to `hi` (exclusive): each iteration binds
/// the variable in the innermost scope and runs the body with one unit
/// less of budget; a `return` in the body ends the loop.
pub open spec fn ev_for<F: Fn(FloatOp) -> u64>(
    f: F,
    env: Seq<Map<Seq<char>, ValueV>>,
    var: Seq<char>,
    i: int,
    hi: int,
    body: ExprV,
    fuel: nat,
) -> Evaled<FlowV>
    decreases fuel, body, 0int,
{
    if i >= hi {
        val_in(env, ValueV::Undefined)
    } else if fuel == 0 {
        err_in(env, budget_msg())
    } else {
        let a = ev_expr(f, bind(env, var, ValueV::Int(i as i64)), body, (fuel - 1) as nat);
        match a.res {
            Err(m) => err_in(a.env, m),
            Ok(FlowV::Return(v)) => ok_in(a.env, FlowV::Return(v)),
            Ok(_) => ev_for(f, a.env, var, i + 1, hi, body, (fuel - 1) as nat),
        }
    }
}

/// A `while` statement: it runs while its condition holds, and ends early
/// only on `return`.
pub open spec fn ev_while_stmt<F: Fn(FloatOp) -> u64>(
    f: F,
    env: Seq<Map<Seq<char>, ValueV>>,
    cond: ExprV,
    body: ExprV,
    fuel: nat,
) -> Evaled<FlowV>
    decreases fuel, body, 0int,
{
    if fuel == 0 {
        err_in(env, budget_msg())
    } else {
        let a = ev_expr(f, env, cond, (fuel - 1) as nat);
        match a.res {
            Err(m) => err_in(a.env, m),
            Ok(FlowV::Value(ValueV::Bool(false))) => val_in(a.env, ValueV::Undefined),
            Ok(FlowV::Value(ValueV::Bool(true))) => {
                let b = ev_expr(f, a.env, body, (fuel - 1) as nat);
                match b.res {
                    Err(m) => err_in(b.env, m),
                    Ok(FlowV::Return(v)) => ok_in(b.env, FlowV::Return(v)),
                    Ok(_) => ev_while_stmt(f, b.env, cond, body, (fuel - 1) as nat),
                }
            },
            Ok(FlowV::Value(_)) => err_in(a.env, "Condition must be bool"@),
            Ok(fl) => ok_in(a.env, fl),
        }
    }
}

/// The environment after declaring an item: a function is bound, by name,
/// in the innermost scope; structs and imports change nothing.
pub open spec fn item_env(env: Seq<Map<Seq<char>, ValueV>>, it: ItemV) -> Seq<Map<Seq<char>, ValueV>> {
    match it {
        ItemV::Fn { name, params, ret: _, body } => bind(
            env,
            name,
            ValueV::Func(params.map_values(|p: (Seq<char>, crate::ast::TypeV)| p.0), body, Seq::empty()),
        ),
        _ => env,
    }
}


// ----- laws of the operators and declarations ---------------------------------

/// `|x|`.
pub open spec fn abs_int(x: int) -> int {
    if x < 0 {
        -x
    } else {
        x
    }
}

/// Whether `r` is what is left of `a` after taking away a multiple of `b`
/// that rounds toward zero: it is smaller than `b` in size and, unless it
/// is zero, has the sign of `a`.
pub open spec fn truncated_rest(a: int, b: int, r: int) -> bool {
    abs_int(r) < abs_int(b) && (r == 0 || (r < 0) == (a < 0))
}

/// Truncating division of positive and negative numbers, in the terms of
/// [`truncated_rest`]: `a = q * b + r`.
proof fn lemma_trunc_div(a: i64, b: i64)
    requires
        b != 0,
    ensures
        !(a == i64::MIN && b == -1) ==> a.checked_div(b) is Some && a.checked_rem(b) is Some,
        ({
            let q = a.checked_div(b);
            q matches Some(qq) ==> truncated_rest(a as int, b as int, a - qq * b)
        }),
        ({
            let m = a.checked_rem(b);
            m matches Some(mm) ==> truncated_rest(a as int, b as int, mm as int) && exists|q: int|
                a - mm == #[trigger] (q * b)
        }),
{
    let x = a as int;
    let d = b as int;
    if x > 0 && d > 0 {
        vstd::arithmetic::div_mod::lemma_fundamental_div_mod(x, d);
        vstd::arithmetic::div_mod::lemma_mod_pos_bound(x, d);
        assert(0 <= x / d <= x) by (nonlinear_arith)
            requires
                x == d * (x / d) + x % d,
                0 <= x % d < d,
                x > 0,
        ;
        assert(x - (x / d) * d == x % d) by (nonlinear_arith)
            requires
                x == d * (x / d) + x % d,
        ;
        assert(x - x % d == (x / d) * d) by (nonlinear_arith)
            requires
                x == d * (x / d) + x % d,
        ;
    } else if x < 0 && d < 0 {
        let nx = x * -1;
        let nd = d * -1;
        vstd::arithmetic::div_mod::lemma_fundamental_div_mod(nx, nd);
        vstd::arithmetic::div_mod::lemma_mod_pos_bound(nx, nd);
        assert(0 <= nx / nd <= nx) by (nonlinear_arith)
            requires
                nx == nd * (nx / nd) + nx % nd,
                0 <= nx % nd < nd,
                nx > 0,
        ;
        if nd >= 2 {
            assert(2 * (nx / nd) <= nx) by (nonlinear_arith)
                requires
                    nx == nd * (nx / nd) + nx % nd,
                    0 <= nx % nd < nd,
                    nd >= 2,
                    nx > 0,
            ;
        }
        assert(x - (nx / nd) * d == -(nx % nd)) by (nonlinear_arith)
            requires
                nx == nd * (nx / nd) + nx % nd,
                nx == -x,
                nd == -d,
        ;
        assert(x - (nx % nd) * -1 == (nx / nd) * d) by (nonlinear_arith)
            requires
                nx == nd * (nx / nd) + nx % nd,
                nx == -x,
                nd == -d,
        ;
    } else if x < 0 {
        let nx = x * -1;
        vstd::arithmetic::div_mod::lemma_fundamental_div_mod(nx, d);
        vstd::arithmetic::div_mod::lemma_mod_pos_bound(nx, d);
        assert(0 <= nx / d <= nx) by (nonlinear_arith)
            requires
                nx == d * (nx / d) + nx % d,
                0 <= nx % d < d,
                nx > 0,
        ;
        assert(x - ((nx / d) * -1) * d == -(nx % d)) by (nonlinear_arith)
            requires
                nx == d * (nx / d) + nx % d,
                nx == -x,
        ;
        assert(x - (nx % d) * -1 == ((nx / d) * -1) * d) by (nonlinear_arith)
            requires
                nx == d * (nx / d) + nx % d,
                nx == -x,
        ;
    } else if x > 0 {
        let nd = d * -1;
        vstd::arithmetic::div_mod::lemma_fundamental_div_mod(x, nd);
        vstd::arithmetic::div_mod::lemma_mod_pos_bound(x, nd);
        assert(0 <= x / nd <= x) by (nonlinear_arith)
            requires
                x == nd * (x / nd) + x % nd,
                0 <= x % nd < nd,
                x > 0,
        ;
        assert(x - ((x / nd) * -1) * d == x % nd) by (nonlinear_arith)
            requires
                x == nd * (x / nd) + x % nd,
                nd == -d,
        ;
        assert(x - x % nd == ((x / nd) * -1) * d) by (nonlinear_arith)
            requires
                x == nd * (x / nd) + x % nd,
                nd == -d,
        ;
    } else {
        assert(x - 0 == 0 * d);
    }
}

/// An operator on two integer literals computes its mathematical result:
/// comparisons and equality compare the numbers; `+ - *` give the sum,
/// difference and product where it fits in an `i64` and fail where it does
/// not; `/` and `%` fail on a zero divisor or on `i64::MIN / -1`, and
/// otherwise give the quotient rounded toward zero and the rest, which has
/// the sign of the dividend; `&` and `|` work on the bits; `&&`, `||` and
/// `^` take no integers. No scope changes.
pub proof fn lemma_int_operators<F: Fn(FloatOp) -> u64>(
    f: F,
    env: Seq<Map<Seq<char>, ValueV>>,
    a: i64,
    op: BinOp,
    b: i64,
    fuel: nat,
)
    requires
        op != BinOp::Assign,
    ensures
        ({
            let r = ev_expr(
                f,
                env,
                ExprV::BinaryOp(Box::new(ExprV::IntLiteral(a)), op, Box::new(ExprV::IntLiteral(b))),
                fuel,
            );
            let ok = |v: ValueV| Ok::<FlowV, Seq<char>>(FlowV::Value(v));
            &&& r.env == env
            &&& op == BinOp::Lt ==> r.res == ok(ValueV::Bool(a < b))
            &&& op == BinOp::Le ==> r.res == ok(ValueV::Bool(a <= b))
            &&& op == BinOp::Gt ==> r.res == ok(ValueV::Bool(a > b))
            &&& op == BinOp::Ge ==> r.res == ok(ValueV::Bool(a >= b))
            &&& op == BinOp::Eq ==> r.res == ok(ValueV::Bool(a == b))
            &&& op == BinOp::Ne ==> r.res == ok(ValueV::Bool(a != b))
            &&& op == BinOp::Add ==> if i64::MIN <= a + b <= i64::MAX {
                r.res == ok(ValueV::Int((a + b) as i64))
            } else {
                r.res is Err
            }
            &&& op == BinOp::Sub ==> if i64::MIN <= a - b <= i64::MAX {
                r.res == ok(ValueV::Int((a - b) as i64))
            } else {
                r.res is Err
            }
            &&& op == BinOp::Mul ==> if i64::MIN <= a * b <= i64::MAX {
                r.res == ok(ValueV::Int((a * b) as i64))
            } else {
                r.res is Err
            }
            &&& (op == BinOp::Div || op == BinOp::Mod) && (b == 0 || (a == i64::MIN && b == -1)) ==> r.res is Err
            &&& op == BinOp::Div && b != 0 && !(a == i64::MIN && b == -1) ==> (r.res matches Ok(
                FlowV::Value(ValueV::Int(q)),
            ) && truncated_rest(a as int, b as int, a - q * b))
            &&& op == BinOp::Mod && b != 0 && !(a == i64::MIN && b == -1) ==> (r.res matches Ok(
                FlowV::Value(ValueV::Int(m)),
            ) && truncated_rest(a as int, b as int, m as int) && exists|q: int| a - m == #[trigger] (q * b))
            &&& op == BinOp::BitAnd ==> r.res == ok(ValueV::Int(a & b))
            &&& op == BinOp::BitOr ==> r.res == ok(ValueV::Int(a | b))
            &&& (op == BinOp::And || op == BinOp::Or || op == BinOp::Xor) ==> r.res is Err
        }),
{
    assert(ev_expr(f, env, ExprV::IntLiteral(a), fuel) == val_in(env, ValueV::Int(a)));
    assert(ev_expr(f, env, ExprV::IntLiteral(b), fuel) == val_in(env, ValueV::Int(b)));
    if b != 0 {
        lemma_trunc_div(a, b);
    }
}

/// Negation of an integer literal gives the negated number, and fails only
/// on `i64::MIN`, whose negation does not fit; `!` takes no integer.
pub proof fn lemma_int_negation<F: Fn(FloatOp) -> u64>(
    f: F,
    env: Seq<Map<Seq<char>, ValueV>>,
    a: i64,
    fuel: nat,
)
    ensures
        ({
            let r = ev_expr(f, env, ExprV::UnaryOp(UnaryOp::Neg, Box::new(ExprV::IntLiteral(a))), fuel);
            &&& r.env == env
            &&& a != i64::MIN ==> r.res == Ok::<FlowV, Seq<char>>(FlowV::Value(ValueV::Int((0 - a) as i64)))
            &&& a == i64::MIN ==> r.res is Err
        }),
        ev_expr(f, env, ExprV::UnaryOp(UnaryOp::Not, Box::new(ExprV::IntLiteral(a))), fuel).res is Err,
{
    assert(ev_expr(f, env, ExprV::IntLiteral(a), fuel) == val_in(env, ValueV::Int(a)));
}

/// Operators on truth values and on strings: `&&`, `||` and `^` are
/// conjunction, disjunction and exclusive or; `!` is negation; `==` and
/// `!=` compare truth values, and strings character by character; a truth
/// value equals no number; the arithmetic and ordering operators take no
/// truth values.
pub proof fn lemma_bool_and_string_operators<F: Fn(FloatOp) -> u64>(f: F, x: bool, y: bool, s: Seq<char>, t: Seq<char>, n: i64, op: BinOp)
    ensures
        binop_value(f, BinOp::And, ValueV::Bool(x), ValueV::Bool(y)) == Ok::<ValueV, Seq<char>>(ValueV::Bool(x && y)),
        binop_value(f, BinOp::Or, ValueV::Bool(x), ValueV::Bool(y)) == Ok::<ValueV, Seq<char>>(ValueV::Bool(x || y)),
        binop_value(f, BinOp::Xor, ValueV::Bool(x), ValueV::Bool(y)) == Ok::<ValueV, Seq<char>>(ValueV::Bool(x != y)),
        binop_value(f, BinOp::Eq, ValueV::Bool(x), ValueV::Bool(y)) == Ok::<ValueV, Seq<char>>(ValueV::Bool(x == y)),
        binop_value(f, BinOp::Ne, ValueV::Bool(x), ValueV::Bool(y)) == Ok::<ValueV, Seq<char>>(ValueV::Bool(x != y)),
        binop_value(f, BinOp::Eq, ValueV::String(s), ValueV::String(t)) == Ok::<ValueV, Seq<char>>(ValueV::Bool(s == t)),
        binop_value(f, BinOp::Ne, ValueV::String(s), ValueV::String(t)) == Ok::<ValueV, Seq<char>>(ValueV::Bool(s != t)),
        binop_value(f, BinOp::Eq, ValueV::Bool(x), ValueV::Int(n)) == Ok::<ValueV, Seq<char>>(ValueV::Bool(false)),
        unop_value(f, UnaryOp::Not, ValueV::Bool(x)) == Ok::<ValueV, Seq<char>>(ValueV::Bool(!x)),
        unop_value(f, UnaryOp::Neg, ValueV::Bool(x)) is Err,
        (op == BinOp::Add || op == BinOp::Sub || op == BinOp::Mul || op == BinOp::Div || op == BinOp::Mod
            || op == BinOp::Lt || op == BinOp::Le || op == BinOp::Gt || op == BinOp::Ge || op == BinOp::BitAnd
            || op == BinOp::BitOr) ==> binop_value(f, op, ValueV::Bool(x), ValueV::Bool(y)) is Err,
{
}

/// Operators on two floats ask the float function the question of the
/// same name on their bit patterns: `+ - * /` give the float it answers,
/// and `< <= > >=` are true when it answers other than 0; `%`, `&`, `|`
/// and the logical operators take no floats.
pub proof fn lemma_float_operators<F: Fn(FloatOp) -> u64>(f: F, a: u64, b: u64, op: BinOp)
    ensures
        binop_value(f, BinOp::Add, ValueV::Float(a), ValueV::Float(b)) == Ok::<ValueV, Seq<char>>(
            ValueV::Float(float_of(f, FloatOpV::Add(a, b))),
        ),
        binop_value(f, BinOp::Sub, ValueV::Float(a), ValueV::Float(b)) == Ok::<ValueV, Seq<char>>(
            ValueV::Float(float_of(f, FloatOpV::Sub(a, b))),
        ),
        binop_value(f, BinOp::Mul, ValueV::Float(a), ValueV::Float(b)) == Ok::<ValueV, Seq<char>>(
            ValueV::Float(float_of(f, FloatOpV::Mul(a, b))),
        ),
        binop_value(f, BinOp::Div, ValueV::Float(a), ValueV::Float(b)) == Ok::<ValueV, Seq<char>>(
            ValueV::Float(float_of(f, FloatOpV::Div(a, b))),
        ),
        binop_value(f, BinOp::Lt, ValueV::Float(a), ValueV::Float(b)) == Ok::<ValueV, Seq<char>>(
            ValueV::Bool(float_of(f, FloatOpV::Lt(a, b)) != 0),
        ),
        binop_value(f, BinOp::Le, ValueV::Float(a), ValueV::Float(b)) == Ok::<ValueV, Seq<char>>(
            ValueV::Bool(float_of(f, FloatOpV::Le(a, b)) != 0),
        ),
        binop_value(f, BinOp::Gt, ValueV::Float(a), ValueV::Float(b)) == Ok::<ValueV, Seq<char>>(
            ValueV::Bool(float_of(f, FloatOpV::Gt(a, b)) != 0),
        ),
        binop_value(f, BinOp::Ge, ValueV::Float(a), ValueV::Float(b)) == Ok::<ValueV, Seq<char>>(
            ValueV::Bool(float_of(f, FloatOpV::Ge(a, b)) != 0),
        ),
        binop_value(f, BinOp::Eq, ValueV::Float(a), ValueV::Float(b)) == Ok::<ValueV, Seq<char>>(
            ValueV::Bool(float_of(f, FloatOpV::Eq(a, b)) != 0),
        ),
        unop_value(f, UnaryOp::Neg, ValueV::Float(a)) == Ok::<ValueV, Seq<char>>(
            ValueV::Float(float_of(f, FloatOpV::Neg(a))),
        ),
        (op == BinOp::Mod || op == BinOp::BitAnd || op == BinOp::BitOr || op == BinOp::And || op == BinOp::Or
            || op == BinOp::Xor) ==> binop_value(f, op, ValueV::Float(a), ValueV::Float(b)) is Err,
{
}

/// An `if` statement whose condition gives a truth value runs the branch
/// it selects, in the scopes the condition left: the first on true, the
/// second (or nothing, giving no value) on false; a condition that gives
/// another value is an error.
pub proof fn lemma_if_selects<F: Fn(FloatOp) -> u64>(
    f: F,
    env: Seq<Map<Seq<char>, ValueV>>,
    c: ExprV,
    then_e: ExprV,
    else_e: Option<ExprV>,
    fuel: nat,
)
    ensures
        ({
            let a = ev_expr(f, env, c, fuel);
            let s = ev_stmt(f, env, StmtV::If(Box::new(c), then_e, else_e), fuel);
            &&& a.res == Ok::<FlowV, Seq<char>>(FlowV::Value(ValueV::Bool(true))) ==> s == ev_expr(
                f,
                a.env,
                then_e,
                fuel,
            )
            &&& a.res == Ok::<FlowV, Seq<char>>(FlowV::Value(ValueV::Bool(false))) ==> s == match else_e {
                Some(ee) => ev_expr(f, a.env, ee, fuel),
                None => val_in(a.env, ValueV::Undefined),
            }
            &&& (a.res matches Ok(FlowV::Value(v)) && !(v is Bool)) ==> s.res is Err
        }),
{
}

/// A `while` statement stops, giving no value, as soon as its condition
/// is false; while the condition is true and the body completes, it is
/// the same loop started again from the scopes the body left, with one
/// unit less of budget.
pub proof fn lemma_while_repeats<F: Fn(FloatOp) -> u64>(
    f: F,
    env: Seq<Map<Seq<char>, ValueV>>,
    c: ExprV,
    body: ExprV,
    fuel: nat,
)
    requires
        fuel > 0,
    ensures
        ({
            let a = ev_expr(f, env, c, (fuel - 1) as nat);
            let b = ev_expr(f, a.env, body, (fuel - 1) as nat);
            let s = ev_stmt(f, env, StmtV::While(Box::new(c), body), fuel);
            &&& a.res == Ok::<FlowV, Seq<char>>(FlowV::Value(ValueV::Bool(false))) ==> s == val_in(
                a.env,
                ValueV::Undefined,
            )
            &&& (a.res == Ok::<FlowV, Seq<char>>(FlowV::Value(ValueV::Bool(true))) && b.res matches Ok(
                FlowV::Value(_),
            )) ==> s == ev_stmt(f, b.env, StmtV::While(Box::new(c), body), (fuel - 1) as nat)
            &&& a.res == Ok::<FlowV, Seq<char>>(FlowV::Value(ValueV::Bool(true))) ==> (b.res matches Ok(
                FlowV::Return(v),
            ) ==> s == ok_in(b.env, FlowV::Return(v)))
        }),
{
}

/// A `for` loop over `i..hi` does nothing once `i` reaches `hi`; below
/// `hi`, it runs the body with the loop variable standing for `i`, and
/// when the body completes goes on over `i + 1..hi` from the scopes the
/// body left.
pub proof fn lemma_for_counts<F: Fn(FloatOp) -> u64>(
    f: F,
    env: Seq<Map<Seq<char>, ValueV>>,
    var: Seq<char>,
    i: int,
    hi: int,
    body: ExprV,
    fuel: nat,
)
    requires
        env.len() > 0,
        i64::MIN <= i <= i64::MAX,
    ensures
        i >= hi ==> ev_for(f, env, var, i, hi, body, fuel) == val_in(env, ValueV::Undefined),
        lookup_val(bind(env, var, ValueV::Int(i as i64)), var) == Some(ValueV::Int(i as i64)),
        ({
            let a = ev_expr(f, bind(env, var, ValueV::Int(i as i64)), body, (fuel - 1) as nat);
            (i < hi && fuel > 0 && a.res matches Ok(FlowV::Value(_))) ==> ev_for(f, env, var, i, hi, body, fuel)
                == ev_for(f, a.env, var, i + 1, hi, body, (fuel - 1) as nat)
        }),
{
}

/// The scope of a call binds each of the first `n` parameters, when no
/// two of them share a name, to the argument in the same position, and to
/// `Undefined` past the last argument; it binds nothing else.
pub proof fn lemma_call_scope(params: Seq<Seq<char>>, vals: Seq<ValueV>, n: int)
    requires
        0 <= n <= params.len(),
        forall|i: int, j: int| 0 <= i < j < n ==> params[i] != params[j],
    ensures
        forall|i: int| #![trigger params[i]] 0 <= i < n ==> bind_params(params, vals, n).contains_key(params[i])
            && bind_params(params, vals, n)[params[i]] == (if i < vals.len() {
            vals[i]
        } else {
            ValueV::Undefined
        }),
        forall|x: Seq<char>| #[trigger] bind_params(params, vals, n).contains_key(x) ==> exists|i: int|
            0 <= i < n && params[i] == x,
    decreases n,
{
    if n > 0 {
        lemma_call_scope(params, vals, n - 1);
        assert forall|x: Seq<char>| #[trigger] bind_params(params, vals, n).contains_key(x) implies exists|i: int|
            0 <= i < n && params[i] == x by {
            if x != params[n - 1] {
                assert(bind_params(params, vals, n - 1).contains_key(x));
            }
        }
    }
}

/// Writing a variable and reading it back: an assignment succeeds exactly
/// when some scope has the name; afterwards the name reads as the value
/// written, every other name reads as before, and the number of scopes is
/// the same.
pub proof fn lemma_assign_then_read(env: Seq<Map<Seq<char>, ValueV>>, name: Seq<char>, v: ValueV)
    ensures
        assign_val(env, name, v) is Some <==> lookup_val(env, name) is Some,
        assign_val(env, name, v) matches Some(e2) ==> {
            &&& e2.len() == env.len()
            &&& lookup_val(e2, name) == Some(v)
            &&& forall|other: Seq<char>| other != name ==> #[trigger] lookup_val(e2, other) == lookup_val(env, other)
        },
    decreases env.len(),
{
    if env.len() > 0 {
        lemma_assign_then_read(env.drop_last(), name, v);
        if env.last().contains_key(name) {
            let e2 = env.drop_last().push(env.last().insert(name, v));
            assert(e2.drop_last() =~= env.drop_last());
            assert forall|other: Seq<char>| other != name implies #[trigger] lookup_val(e2, other) == lookup_val(
                env,
                other,
            ) by {
                assert(e2.last() == env.last().insert(name, v));
            }
        } else if let Some(inner) = assign_val(env.drop_last(), name, v) {
            let e2 = inner.push(env.last());
            assert(e2.drop_last() =~= inner);
            assert forall|other: Seq<char>| other != name implies #[trigger] lookup_val(e2, other) == lookup_val(
                env,
                other,
            ) by {
                assert(e2.last() == env.last());
                if !env.last().contains_key(other) {
                    assert(lookup_val(inner, other) == lookup_val(env.drop_last(), other));
                }
            }
        }
    }
}

/// An assignment to a variable evaluates its right side, gives the value
/// assigned, and the variable then reads as that value; a name no scope has
/// is an error, and so is a target that is not a name.
pub proof fn lemma_assignment<F: Fn(FloatOp) -> u64>(
    f: F,
    env: Seq<Map<Seq<char>, ValueV>>,
    name: Seq<char>,
    n: i64,
    fuel: nat,
)
    ensures
        ({
            let r = ev_expr(
                f,
                env,
                ExprV::BinaryOp(Box::new(ExprV::Ident(name)), BinOp::Assign, Box::new(ExprV::IntLiteral(n))),
                fuel,
            );
            &&& lookup_val(env, name) is Some ==> r.res == Ok::<FlowV, Seq<char>>(FlowV::Value(ValueV::Int(n)))
                && ev_expr(f, r.env, ExprV::Ident(name), fuel) == val_in(r.env, ValueV::Int(n))
            &&& lookup_val(env, name) is None ==> r.res is Err
        }),
        ev_expr(
            f,
            env,
            ExprV::BinaryOp(Box::new(ExprV::IntLiteral(n)), BinOp::Assign, Box::new(ExprV::IntLiteral(n))),
            fuel,
        ).res is Err,
{
    lemma_assign_then_read(env, name, ValueV::Int(n));
    assert(ev_expr(f, env, ExprV::IntLiteral(n), fuel) == val_in(env, ValueV::Int(n)));
    if lookup_val(env, name) is Some {
        assert(ev_expr(f, env, ExprV::Ident(name), fuel) == val_in(env, lookup_val(env, name)->Some_0));
    }
}

/// A `const` declaration binds as a `let` does, and so does a `mut`
/// statement where there is a scope: when the expression gives the value
/// `v`, the statement gives no value, keeps the number of scopes, makes
/// the name stand for `v`, and leaves every other name as it was.
pub proof fn lemma_declarations_bind<F: Fn(FloatOp) -> u64>(
    f: F,
    env: Seq<Map<Seq<char>, ValueV>>,
    name: Seq<char>,
    ty: Option<crate::ast::TypeV>,
    x: ExprV,
    fuel: nat,
)
    requires
        env.len() > 0,
    ensures
        ev_stmt(f, env, StmtV::Const(name, ty, x), fuel) == ev_stmt(f, env, StmtV::Let(name, ty, x), fuel),
        ev_stmt(f, env, StmtV::Mut(name, x), fuel) == ev_stmt(f, env, StmtV::Let(name, ty, x), fuel),
        ({
            let a = ev_expr(f, env, x, fuel);
            let s = ev_stmt(f, env, StmtV::Let(name, ty, x), fuel);
            a.res matches Ok(FlowV::Value(v)) ==> {
                &&& s.res == Ok::<FlowV, Seq<char>>(FlowV::Value(ValueV::Undefined))
                &&& s.env.len() == a.env.len()
                &&& lookup_val(s.env, name) == Some(v)
                &&& forall|other: Seq<char>| other != name ==> #[trigger] lookup_val(s.env, other) == lookup_val(
                    a.env,
                    other,
                )
            }
        }),
{
    lemma_expr_env_balanced(f, env, x, fuel);
    let a = ev_expr(f, env, x, fuel);
    if let Ok(FlowV::Value(v)) = a.res {
        let s = bind(a.env, name, v);
        assert(s.drop_last() =~= a.env.drop_last());
        assert forall|other: Seq<char>| other != name implies #[trigger] lookup_val(s, other) == lookup_val(
            a.env,
            other,
        ) by {
            assert(s.last() == a.env.last().insert(name, v));
        }
    }
}

// ----- copies ---------------------------------------------------------------

fn copy_strings(ss: &Vec<String>) -> (r: Vec<String>)
    ensures
        strings_view(r@) == strings_view(ss@),
{
    let mut v: Vec<String> = Vec::new();
    let mut i: usize = 0;
    while i < ss.len()
        invariant
            i <= ss.len(),
            v.len() == i,
            forall|k: int| 0 <= k < i ==> #[trigger] v@[k]@ == ss@[k]@,
        decreases ss.len() - i,
    {
        v.push(ss[i].clone());
        i += 1;
    }
    assert(strings_view(v@) =~= strings_view(ss@));
    v
}

/// A copy of a value.
#[verifier::loop_isolation(false)]
#[verifier::spinoff_prover]
pub fn copy_value(v: &Value) -> (r: Value)
    ensures
        r@ == v@,
    decreases v,
{
    match v {
        Value::Int(n) => Value::Int(*n),
        Value::Float(b) => Value::Float(*b),
        Value::String(s) => Value::String(s.clone()),
        Value::Bool(b) => Value::Bool(*b),
        Value::Struct(n, fs) => {
            let mut out: Vec<(String, Value)> = Vec::new();
            let mut i: usize = 0;
            while i < fs.len()
                invariant
                    i <= fs.len(),
                    out.len() == i,
                    forall|k: int|
                        0 <= k < i ==> #[trigger] out@[k].0@ == fs@[k].0@ && value_view(out@[k].1)
                            == value_view(fs@[k].1),
                decreases fs.len() - i,
            {
                proof {
                    assert(decreases_to!(*v => *fs));
                    assert(decreases_to!(*fs => fs@));
                    assert(decreases_to!(fs@ => fs@[i as int]));
                    assert(decreases_to!(fs@[i as int] => fs@[i as int].1));
                }
                let x = copy_value(&fs[i].1);
                let k = fs[i].0.clone();
                let ghost before = out@;
                out.push((k, x));
                assert(out@[i as int].0@ == fs@[i as int].0@);
                assert(value_view(out@[i as int].1) == value_view(fs@[i as int].1));
                assert forall|j: int| 0 <= j < i + 1 implies #[trigger] out@[j].0@ == fs@[j].0@
                    && value_view(out@[j].1) == value_view(fs@[j].1) by {
                    if j < i {
                        assert(out@[j] == before[j]);
                        assert(before[j].0@ == fs@[j].0@);
                        assert(value_view(before[j].1) == value_view(fs@[j].1));
                    }
                }
                i += 1;
            }
            assert(fields_view(out@) =~= fields_view(fs@));
            Value::Struct(n.clone(), out)
        },
        Value::Func(ps, body, caps) => Value::Func(copy_strings(ps), Box::new(copy_expr(body)), copy_strings(caps)),
        Value::Undefined => Value::Undefined,
        Value::Break => Value::Break,
        Value::Continue => Value::Continue,
    }
}

impl Clone for Value {
    fn clone(&self) -> (r: Self)
        ensures
            r@ == self@,
    {
        copy_value(self)
    }
}

impl DeepCopy for Value {
    fn deep_copy(&self) -> (r: Self) {
        copy_value(self)
    }
}

/// A copy of an environment, scope by scope.
fn copy_env(env: &Env) -> (r: Env)
    ensures
        r.len() == env.len(),
        env_view(r@) == env_view(env@),
{
    let mut out: Env = Vec::new();
    let mut i: usize = 0;
    while i < env.len()
        invariant
            i <= env.len(),
            out.len() == i,
            forall|k: int| 0 <= k < i ==> #[trigger] out@[k]@ == env@[k]@,
        decreases env.len() - i,
    {
        out.push(env[i].copy());
        i += 1;
    }
    assert(env_view(out@) =~= env_view(env@));
    out
}


/// Number literals as call arguments, from the `k`-th on, evaluate to
/// their numbers in order without touching any scope.
proof fn lemma_number_args<F: Fn(FloatOp) -> u64>(
    f: F,
    env: Seq<Map<Seq<char>, ValueV>>,
    nums: Seq<i64>,
    k: int,
    acc: Seq<ValueV>,
    fuel: nat,
)
    requires
        0 <= k <= nums.len(),
    ensures
        ev_args(f, env, Seq::new(nums.len(), |m: int| ExprV::IntLiteral(nums[m])), k, acc, fuel) == ok_in(
            env,
            Ok::<Seq<ValueV>, ValueV>(acc + Seq::new((nums.len() - k) as nat, |m: int| ValueV::Int(nums[k + m]))),
        ),
    decreases nums.len() - k,
{
    let args = Seq::new(nums.len(), |m: int| ExprV::IntLiteral(nums[m]));
    let rest = Seq::new((nums.len() - k) as nat, |m: int| ValueV::Int(nums[k + m]));
    if k < nums.len() {
        assert(ev_expr(f, env, args[k], fuel) == val_in(env, ValueV::Int(nums[k])));
        lemma_number_args(f, env, nums, k + 1, acc.push(ValueV::Int(nums[k])), fuel);
        let rest1 = Seq::new((nums.len() - (k + 1)) as nat, |m: int| ValueV::Int(nums[k + 1 + m]));
        assert(acc.push(ValueV::Int(nums[k])) + rest1 =~= acc + rest);
    } else {
        assert(acc + rest =~= acc);
    }
}

/// A function declared in a scope and then called with one number per
/// parameter runs its body in a scope of its own, where each parameter
/// names the argument in its position: a body that gives back its `i`-th
/// parameter, as its value or by `return`, makes the call give the `i`-th
/// argument, and the caller's scopes stay as they were.
pub proof fn lemma_call_passes_arguments<F: Fn(FloatOp) -> u64>(
    f: F,
    env: Seq<Map<Seq<char>, ValueV>>,
    name: Seq<char>,
    params: Seq<(Seq<char>, crate::ast::TypeV)>,
    ret: crate::ast::TypeV,
    nums: Seq<i64>,
    i: int,
    returns: bool,
    fuel: nat,
)
    requires
        env.len() > 0,
        params.len() == nums.len(),
        0 <= i < params.len(),
        forall|a: int, b: int| 0 <= a < b < params.len() ==> params[a].0 != params[b].0,
        fuel > 0,
    ensures
        ({
            let body = if returns {
                ExprV::Return(Some(Box::new(ExprV::Ident(params[i].0))))
            } else {
                ExprV::Ident(params[i].0)
            };
            let env2 = item_env(env, ItemV::Fn { name, params, ret, body });
            let args = Seq::new(nums.len(), |m: int| ExprV::IntLiteral(nums[m]));
            ev_expr(f, env2, ExprV::Call(name, args), fuel) == val_in(env2, ValueV::Int(nums[i]))
        }),
{
    let body = if returns {
        ExprV::Return(Some(Box::new(ExprV::Ident(params[i].0))))
    } else {
        ExprV::Ident(params[i].0)
    };
    let env2 = item_env(env, ItemV::Fn { name, params, ret, body });
    let pnames = params.map_values(|p: (Seq<char>, crate::ast::TypeV)| p.0);
    let ints = Seq::new(nums.len(), |m: int| ValueV::Int(nums[m]));
    lemma_number_args(f, env2, nums, 0, Seq::empty(), fuel);
    assert(Seq::<ValueV>::empty() + Seq::new((nums.len() - 0) as nat, |m: int| ValueV::Int(nums[0 + m])) =~= ints);
    assert(env2.last() == env.last().insert(name, ValueV::Func(pnames, body, Seq::empty())));
    assert(find_func(env2, name) == Some((pnames, body)));
    assert forall|a: int, b: int| 0 <= a < b < pnames.len() implies pnames[a] != pnames[b] by {
        assert(pnames[a] == params[a].0 && pnames[b] == params[b].0);
    }
    lemma_call_scope(pnames, ints, pnames.len() as int);
    assert(pnames[i] == params[i].0);
    let scope = bind_params(pnames, ints, pnames.len() as int);
    let call_env = env2.push(scope);
    assert(scope.contains_key(pnames[i]) && scope[pnames[i]] == ValueV::Int(nums[i]));
    assert(call_env.last() == scope);
    assert(lookup_val(call_env, params[i].0) == Some(ValueV::Int(nums[i])));
    let fl = (fuel - 1) as nat;
    assert(ev_expr(f, call_env, ExprV::Ident(params[i].0), fl) == val_in(call_env, ValueV::Int(nums[i])));
}

/// Number literals as field initialisers, from the `k`-th on, evaluate to
/// their numbers in order, each under its field's name, without touching
/// any scope.
proof fn lemma_number_inits<F: Fn(FloatOp) -> u64>(
    f: F,
    env: Seq<Map<Seq<char>, ValueV>>,
    names: Seq<Seq<char>>,
    nums: Seq<i64>,
    k: int,
    acc: Seq<(Seq<char>, ValueV)>,
    fuel: nat,
)
    requires
        names.len() == nums.len(),
        0 <= k <= nums.len(),
    ensures
        ev_inits(f, env, Seq::new(nums.len(), |m: int| (names[m], ExprV::IntLiteral(nums[m]))), k, acc, fuel)
            == ok_in(
            env,
            Ok::<Seq<(Seq<char>, ValueV)>, ValueV>(
                acc + Seq::new((nums.len() - k) as nat, |m: int| (names[k + m], ValueV::Int(nums[k + m]))),
            ),
        ),
    decreases nums.len() - k,
{
    let inits = Seq::new(nums.len(), |m: int| (names[m], ExprV::IntLiteral(nums[m])));
    let rest = Seq::new((nums.len() - k) as nat, |m: int| (names[k + m], ValueV::Int(nums[k + m])));
    if k < nums.len() {
        assert(ev_expr(f, env, inits[k].1, fuel) == val_in(env, ValueV::Int(nums[k])));
        lemma_number_inits(f, env, names, nums, k + 1, acc.push((names[k], ValueV::Int(nums[k]))), fuel);
        let rest1 = Seq::new(
            (nums.len() - (k + 1)) as nat,
            |m: int| (names[k + 1 + m], ValueV::Int(nums[k + 1 + m])),
        );
        assert(acc.push((names[k], ValueV::Int(nums[k]))) + rest1 =~= acc + rest);
    } else {
        assert(acc + rest =~= acc);
    }
}

/// The first field of a list that has the name `names[i]`, when no two
/// names are the same, is the `i`-th.
proof fn lemma_field_found(names: Seq<Seq<char>>, nums: Seq<i64>, k: int, i: int)
    requires
        names.len() == nums.len(),
        0 <= k <= i < names.len(),
        forall|a: int, b: int| 0 <= a < b < names.len() ==> names[a] != names[b],
    ensures
        field_of(
            Seq::new((nums.len() - k) as nat, |m: int| (names[k + m], ValueV::Int(nums[k + m]))),
            names[i],
        ) == Some(ValueV::Int(nums[i])),
    decreases i - k,
{
    let fs = Seq::new((nums.len() - k) as nat, |m: int| (names[k + m], ValueV::Int(nums[k + m])));
    if k < i {
        assert(fs[0].0 == names[k]);
        lemma_field_found(names, nums, k + 1, i);
        assert(fs.drop_first() =~= Seq::new(
            (nums.len() - (k + 1)) as nat,
            |m: int| (names[k + 1 + m], ValueV::Int(nums[k + 1 + m])),
        ));
    } else {
        assert(fs[0] == (names[i], ValueV::Int(nums[i])));
    }
}

/// A struct built from number literals under distinct field names holds
/// each number under its own field: reading field `names[i]` of it gives
/// `nums[i]`, and no scope changes.
pub proof fn lemma_struct_fields<F: Fn(FloatOp) -> u64>(
    f: F,
    env: Seq<Map<Seq<char>, ValueV>>,
    sname: Seq<char>,
    names: Seq<Seq<char>>,
    nums: Seq<i64>,
    i: int,
    fuel: nat,
)
    requires
        names.len() == nums.len(),
        0 <= i < names.len(),
        forall|a: int, b: int| 0 <= a < b < names.len() ==> names[a] != names[b],
    ensures
        ({
            let inits = Seq::new(nums.len(), |m: int| (names[m], ExprV::IntLiteral(nums[m])));
            let e = ExprV::FieldAccess(Box::new(ExprV::StructInit(sname, inits)), names[i]);
            ev_expr(f, env, e, fuel) == val_in(env, ValueV::Int(nums[i]))
        }),
{
    lemma_number_inits(f, env, names, nums, 0, Seq::empty(), fuel);
    let fs = Seq::new((nums.len() - 0) as nat, |m: int| (names[0 + m], ValueV::Int(nums[0 + m])));
    assert(Seq::<(Seq<char>, ValueV)>::empty() + fs =~= fs);
    lemma_field_found(names, nums, 0, i);
    let inits = Seq::new(nums.len(), |m: int| (names[m], ExprV::IntLiteral(nums[m])));
    let st = ExprV::StructInit(sname, inits);
    assert(ev_expr(f, env, st, fuel) == val_in(env, ValueV::Struct(sname, fs)));
    assert(field_value(ValueV::Struct(sname, fs), names[i]) == Ok::<ValueV, Seq<char>>(ValueV::Int(nums[i])));
}

/// A block runs in a scope of its own: a name declared in it by `let` reads
/// as its value in the statements that follow, the block's value is that of
/// its last statement, and when the block ends the scopes are those from
/// before it, the declaration gone.
#[verifier::rlimit(40)]
pub proof fn lemma_block_scope<F: Fn(FloatOp) -> u64>(
    f: F,
    env: Seq<Map<Seq<char>, ValueV>>,
    name: Seq<char>,
    ty: Option<crate::ast::TypeV>,
    n: i64,
    fuel: nat,
)
    ensures
        ({
            let e = ExprV::Block(
                seq![StmtV::Let(name, ty, ExprV::IntLiteral(n)), StmtV::Expr(ExprV::Ident(name))],
            );
            ev_expr(f, env, e, fuel) == val_in(env, ValueV::Int(n))
        }),
{
    let inner = env.push(Map::empty());
    let stmts = seq![StmtV::Let(name, ty, ExprV::IntLiteral(n)), StmtV::Expr(ExprV::Ident(name))];
    assert(ev_expr(f, inner, ExprV::IntLiteral(n), fuel) == val_in(inner, ValueV::Int(n)));
    let b = bind(inner, name, ValueV::Int(n));
    assert(ev_stmt(f, inner, stmts[0], fuel) == val_in(b, ValueV::Undefined));
    assert(b.last().contains_key(name));
    assert(lookup_val(b, name) == Some(ValueV::Int(n)));
    assert(ev_stmt(f, b, stmts[1], fuel) == val_in(b, ValueV::Int(n)));
    assert(b.drop_last() =~= env);
    assert(pop_env(b) == env);
    assert(ev_block(f, b, stmts, 2, ValueV::Int(n), fuel) == val_in(env, ValueV::Int(n)));
    assert(ev_block(f, b, stmts, 1, ValueV::Undefined, fuel) == val_in(env, ValueV::Int(n)));
    assert(ev_block(f, inner, stmts, 0, ValueV::Undefined, fuel) == val_in(env, ValueV::Int(n)));
}

/// A `return` ends its block at once: the statements after it do not run,
/// the block's scope is closed, and the returned value goes on outward.
pub proof fn lemma_return_skips_rest<F: Fn(FloatOp) -> u64>(
    f: F,
    env: Seq<Map<Seq<char>, ValueV>>,
    n: i64,
    rest: Seq<StmtV>,
    fuel: nat,
)
    ensures
        ev_expr(
            f,
            env,
            ExprV::Block(seq![StmtV::Return(Some(Box::new(ExprV::IntLiteral(n))))] + rest),
            fuel,
        ) == ok_in(env, FlowV::Return(ValueV::Int(n))),
{
    let inner = env.push(Map::empty());
    let stmts = seq![StmtV::Return(Some(Box::new(ExprV::IntLiteral(n))))] + rest;
    assert(stmts[0] == StmtV::Return(Some(Box::new(ExprV::IntLiteral(n)))));
    assert(ev_expr(f, inner, ExprV::IntLiteral(n), fuel) == val_in(inner, ValueV::Int(n)));
    assert(ev_stmt(f, inner, stmts[0], fuel) == ok_in(inner, FlowV::Return(ValueV::Int(n))));
    assert(pop_env(inner) == env);
    assert(ev_block(f, inner, stmts, 0, ValueV::Undefined, fuel) == ok_in(env, FlowV::Return(ValueV::Int(n))));
}

// ----- lemmas on the rules --------------------------------------------------

/// With scope `i` the innermost that has `name`, a lookup finds it there
/// and an assignment changes it there.
pub proof fn lemma_val_innermost(env: Seq<Map<Seq<char>, ValueV>>, name: Seq<char>, v: ValueV, i: int)
    requires
        0 <= i < env.len(),
        env[i].contains_key(name),
        forall|j: int| i < j < env.len() ==> !#[trigger] env[j].contains_key(name),
    ensures
        lookup_val(env, name) == Some(env[i][name]),
        assign_val(env, name, v) == Some(env.update(i, env[i].insert(name, v))),
    decreases env.len(),
{
    if i == env.len() - 1 {
        assert(env.drop_last().push(env.last().insert(name, v)) =~= env.update(i, env[i].insert(name, v)));
    } else {
        let d = env.drop_last();
        assert(!env[env.len() - 1].contains_key(name));
        assert forall|j: int| i < j < d.len() implies !#[trigger] d[j].contains_key(name) by {
            assert(d[j] == env[j]);
        }
        lemma_val_innermost(d, name, v, i);
        assert(d.update(i, d[i].insert(name, v)).push(env.last()) =~= env.update(i, env[i].insert(name, v)));
    }
}

/// With no scope that has `name`, a lookup and an assignment find nothing.
pub proof fn lemma_val_absent(env: Seq<Map<Seq<char>, ValueV>>, name: Seq<char>, v: ValueV)
    requires
        forall|j: int| 0 <= j < env.len() ==> !#[trigger] env[j].contains_key(name),
    ensures
        lookup_val(env, name) is None,
        assign_val(env, name, v) is None,
    decreases env.len(),
{
    if env.len() > 0 {
        let d = env.drop_last();
        assert(!env[env.len() - 1].contains_key(name));
        assert forall|j: int| 0 <= j < d.len() implies !#[trigger] d[j].contains_key(name) by {
            assert(d[j] == env[j]);
        }
        lemma_val_absent(d, name, v);
    }
}

/// Scope `i` is the innermost in which `name` names a function.
proof fn lemma_find_func(env: Seq<Map<Seq<char>, ValueV>>, name: Seq<char>, i: int)
    requires
        -1 <= i < env.len(),
        forall|j: int|
            i < j < env.len() ==> !(#[trigger] env[j].contains_key(name) && env[j][name] is Func),
        i >= 0 ==> env[i].contains_key(name) && env[i][name] is Func,
    ensures
        find_func(env, name) == (if i >= 0 {
            Some((env[i][name]->Func_0, env[i][name]->Func_1))
        } else {
            None
        }),
    decreases env.len(),
{
    if env.len() > 0 && i < env.len() - 1 {
        let d = env.drop_last();
        assert(!(env[env.len() - 1].contains_key(name) && env[env.len() - 1][name] is Func));
        assert forall|j: int| i < j < d.len() implies !(#[trigger] d[j].contains_key(name) && d[j][name] is Func) by {
            assert(d[j] == env[j]);
        }
        lemma_find_func(d, name, i);
    }
}

/// The first field named `name` is the one at `j`.
proof fn lemma_field_of(fs: Seq<(Seq<char>, ValueV)>, name: Seq<char>, j: int)
    requires
        0 <= j <= fs.len(),
        forall|k: int| 0 <= k < j ==> #[trigger] fs[k].0 != name,
        j < fs.len() ==> fs[j].0 == name,
    ensures
        field_of(fs, name) == (if j < fs.len() {
            Some(fs[j].1)
        } else {
            None
        }),
    decreases j,
{
    if j > 0 {
        let d = fs.drop_first();
        assert(fs[0].0 != name);
        assert forall|k: int| 0 <= k < j - 1 implies #[trigger] d[k].0 != name by {
            assert(d[k] == fs[k + 1]);
        }
        lemma_field_of(d, name, j - 1);
    }
}

// ----- what evaluation keeps ---------------------------------------------------

/// Evaluation never drops a scope it did not open, and when it succeeds it
/// has closed every scope it opened.
pub open spec fn env_balanced<T>(before: Seq<Map<Seq<char>, ValueV>>, e: Evaled<T>) -> bool {
    &&& e.env.len() >= before.len()
    &&& e.res is Ok ==> e.env.len() == before.len()
}

proof fn lemma_assign_val_len(env: Seq<Map<Seq<char>, ValueV>>, name: Seq<char>, v: ValueV)
    ensures
        assign_val(env, name, v) matches Some(e) ==> e.len() == env.len(),
    decreases env.len(),
{
    if env.len() > 0 {
        lemma_assign_val_len(env.drop_last(), name, v);
    }
}

/// Whether evaluating `e` may declare a name in the innermost scope it
/// starts with: it holds a `let`, `const` or `for` statement, or a function
/// item, that no block encloses. Evaluation needs a scope only for those.
pub open spec fn declares_e(e: ExprV) -> bool
    decreases e, 0int,
{
    match e {
        ExprV::BinaryOp(l, _, r) => declares_e(*l) || declares_e(*r),
        ExprV::UnaryOp(_, x) => declares_e(*x),
        ExprV::Call(_, args) => declares_args(args, 0),
        ExprV::StructInit(_, inits) => declares_inits(inits, 0),
        ExprV::FieldAccess(o, _) => declares_e(*o),
        ExprV::If(c, t, el) => declares_e(*c) || declares_s(*t) || match el {
            Some(x) => declares_s(*x),
            None => false,
        },
        ExprV::While(c, b) => declares_e(*c) || declares_s(*b),
        ExprV::Return(v) => match v {
            Some(x) => declares_e(*x),
            None => false,
        },
        _ => false,
    }
}

/// [`declares_e`] for the arguments of a call from the `i`-th on.
pub open spec fn declares_args(args: Seq<ExprV>, i: int) -> bool
    decreases args, args.len() - i,
{
    if 0 <= i < args.len() {
        declares_e(args[i]) || declares_args(args, i + 1)
    } else {
        false
    }
}

/// [`declares_e`] for the field initialisers of a struct from the `i`-th on.
pub open spec fn declares_inits(inits: Seq<(Seq<char>, ExprV)>, i: int) -> bool
    decreases inits, inits.len() - i,
{
    if 0 <= i < inits.len() {
        declares_e(inits[i].1) || declares_inits(inits, i + 1)
    } else {
        false
    }
}

/// [`declares_e`] for a statement.
pub open spec fn declares_s(s: StmtV) -> bool
    decreases s, 0int,
{
    match s {
        StmtV::Let(..) => true,
        StmtV::Const(..) => true,
        StmtV::For(..) => true,
        StmtV::Mut(_, x) => declares_e(x),
        StmtV::Expr(x) => declares_e(x),
        StmtV::Return(v) => match v {
            Some(x) => declares_e(*x),
            None => false,
        },
        StmtV::Item(it) => it is Fn,
        StmtV::If(c, t, el) => declares_e(*c) || declares_e(t) || match el {
            Some(x) => declares_e(x),
            None => false,
        },
        StmtV::While(c, b) => declares_e(*c) || declares_e(b),
    }
}

/// Evaluating an expression keeps the scopes below it, and closes the
/// scopes it opens when it succeeds.
#[verifier::rlimit(40)]
pub proof fn lemma_expr_env_balanced<F: Fn(FloatOp) -> u64>(
    f: F,
    env: Seq<Map<Seq<char>, ValueV>>,
    e: ExprV,
    fuel: nat,
)
    requires
        env.len() > 0 || !declares_e(e),
    ensures
        env_balanced(env, ev_expr(f, env, e, fuel)),
    decreases fuel, e, 1int,
{
    match e {
        ExprV::BinaryOp(l, op, r) => {
            assert(env.len() > 0 || !declares_e(*l) && !declares_e(*r));
            lemma_expr_env_balanced(f, env, *l, fuel);
            let a = ev_expr(f, env, *l, fuel);
            assert(a.env.len() >= env.len());
            lemma_expr_env_balanced(f, a.env, *r, fuel);
            let b = ev_expr(f, a.env, *r, fuel);
            match (*l, b.res) {
                (ExprV::Ident(name), Ok(FlowV::Value(rv))) => {
                    lemma_assign_val_len(b.env, name, rv);
                },
                _ => {},
            }
        },
        ExprV::UnaryOp(op, x) => {
            lemma_expr_env_balanced(f, env, *x, fuel);
        },
        ExprV::Call(name, args) => {
            lemma_args_env_balanced(f, env, args, 0, Seq::empty(), fuel);
        },
        ExprV::StructInit(name, inits) => {
            lemma_inits_env_balanced(f, env, inits, 0, Seq::empty(), fuel);
        },
        ExprV::FieldAccess(obj, field) => {
            lemma_expr_env_balanced(f, env, *obj, fuel);
        },
        ExprV::Block(stmts) => {
            lemma_block_env_balanced(f, env.push(Map::empty()), stmts, 0, ValueV::Undefined, fuel);
        },
        ExprV::If(c, then_s, else_s) => {
            assert(env.len() > 0 || !declares_e(*c) && !declares_s(*then_s) && (else_s matches Some(es)
                ==> !declares_s(*es)));
            lemma_expr_env_balanced(f, env, *c, fuel);
            let a = ev_expr(f, env, *c, fuel);
            assert(a.env.len() >= env.len());
            lemma_stmt_env_balanced(f, a.env, *then_s, fuel);
            match else_s {
                Some(es) => {
                    lemma_stmt_env_balanced(f, a.env, *es, fuel);
                },
                None => {},
            }
        },
        ExprV::While(c, body) => {
            lemma_loop_env_balanced(f, env, *c, *body, fuel);
        },
        ExprV::Return(v) => match v {
            Some(x) => {
                lemma_expr_env_balanced(f, env, *x, fuel);
            },
            None => {},
        },
        _ => {},
    }
}

/// [`lemma_expr_env_balanced`] for the arguments of a call.
pub proof fn lemma_args_env_balanced<F: Fn(FloatOp) -> u64>(
    f: F,
    env: Seq<Map<Seq<char>, ValueV>>,
    args: Seq<ExprV>,
    i: int,
    acc: Seq<ValueV>,
    fuel: nat,
)
    requires
        env.len() > 0 || !declares_args(args, i),
    ensures
        env_balanced(env, ev_args(f, env, args, i, acc, fuel)),
    decreases fuel, args, args.len() - i,
{
    if 0 <= i < args.len() {
        lemma_expr_env_balanced(f, env, args[i], fuel);
        let a = ev_expr(f, env, args[i], fuel);
        match a.res {
            Ok(FlowV::Value(v)) => {
                lemma_args_env_balanced(f, a.env, args, i + 1, acc.push(v), fuel);
            },
            _ => {},
        }
    }
}

/// [`lemma_expr_env_balanced`] for the fields of a struct literal.
pub proof fn lemma_inits_env_balanced<F: Fn(FloatOp) -> u64>(
    f: F,
    env: Seq<Map<Seq<char>, ValueV>>,
    inits: Seq<(Seq<char>, ExprV)>,
    i: int,
    acc: Seq<(Seq<char>, ValueV)>,
    fuel: nat,
)
    requires
        env.len() > 0 || !declares_inits(inits, i),
    ensures
        env_balanced(env, ev_inits(f, env, inits, i, acc, fuel)),
    decreases fuel, inits, inits.len() - i,
{
    if 0 <= i < inits.len() {
        lemma_expr_env_balanced(f, env, inits[i].1, fuel);
        let a = ev_expr(f, env, inits[i].1, fuel);
        match a.res {
            Ok(FlowV::Value(v)) => {
                lemma_inits_env_balanced(f, a.env, inits, i + 1, acc.push((inits[i].0, v)), fuel);
            },
            _ => {},
        }
    }
}

/// A block run in a scope of its own closes that scope whenever it ends
/// without an error.
pub proof fn lemma_block_env_balanced<F: Fn(FloatOp) -> u64>(
    f: F,
    env: Seq<Map<Seq<char>, ValueV>>,
    stmts: Seq<StmtV>,
    i: int,
    result: ValueV,
    fuel: nat,
)
    requires
        env.len() > 0,
    ensures
        ev_block(f, env, stmts, i, result, fuel).env.len() >= env.len() - 1,
        ev_block(f, env, stmts, i, result, fuel).res is Ok ==> ev_block(f, env, stmts, i, result, fuel).env.len()
            == env.len() - 1,
        ev_block(f, env, stmts, i, result, fuel).res is Err ==> ev_block(f, env, stmts, i, result, fuel).env.len()
            >= env.len(),
    decreases fuel, stmts, stmts.len() - i,
{
    if 0 <= i < stmts.len() {
        lemma_stmt_env_balanced(f, env, stmts[i], fuel);
        let a = ev_stmt(f, env, stmts[i], fuel);
        match a.res {
            Ok(FlowV::Value(v)) => {
                lemma_block_env_balanced(f, a.env, stmts, i + 1, v, fuel);
            },
            _ => {},
        }
    }
}

/// [`lemma_expr_env_balanced`] for a `while` expression.
pub proof fn lemma_loop_env_balanced<F: Fn(FloatOp) -> u64>(
    f: F,
    env: Seq<Map<Seq<char>, ValueV>>,
    cond: ExprV,
    body: StmtV,
    fuel: nat,
)
    requires
        env.len() > 0 || !(declares_e(cond) || declares_s(body)),
    ensures
        env_balanced(env, ev_loop(f, env, cond, body, fuel)),
    decreases fuel, body, 0int,
{
    if fuel > 0 {
        lemma_expr_env_balanced(f, env, cond, (fuel - 1) as nat);
        let a = ev_expr(f, env, cond, (fuel - 1) as nat);
        lemma_stmt_env_balanced(f, a.env, body, (fuel - 1) as nat);
        let b = ev_stmt(f, a.env, body, (fuel - 1) as nat);
        lemma_loop_env_balanced(f, b.env, cond, body, (fuel - 1) as nat);
    }
}

/// [`lemma_expr_env_balanced`] for a statement.
pub proof fn lemma_stmt_env_balanced<F: Fn(FloatOp) -> u64>(
    f: F,
    env: Seq<Map<Seq<char>, ValueV>>,
    s: StmtV,
    fuel: nat,
)
    requires
        env.len() > 0 || !declares_s(s),
    ensures
        env_balanced(env, ev_stmt(f, env, s, fuel)),
    decreases fuel, s, 1int,
{
    match s {
        StmtV::Let(name, _, x) => {
            lemma_expr_env_balanced(f, env, x, fuel);
        },
        StmtV::Mut(name, x) => {
            lemma_expr_env_balanced(f, env, x, fuel);
        },
        StmtV::Const(name, _, x) => {
            lemma_expr_env_balanced(f, env, x, fuel);
        },
        StmtV::Expr(x) => {
            lemma_expr_env_balanced(f, env, x, fuel);
        },
        StmtV::Return(v) => match v {
            Some(x) => {
                lemma_expr_env_balanced(f, env, *x, fuel);
            },
            None => {},
        },
        StmtV::Item(it) => {},
        StmtV::For(var, start, end, body) => {
            lemma_expr_env_balanced(f, env, *start, fuel);
            let a = ev_expr(f, env, *start, fuel);
            lemma_expr_env_balanced(f, a.env, *end, fuel);
            let b = ev_expr(f, a.env, *end, fuel);
            match (a.res, b.res) {
                (Ok(FlowV::Value(ValueV::Int(lo))), Ok(FlowV::Value(ValueV::Int(hi)))) => {
                    lemma_for_env_balanced(f, b.env, var, lo as int, hi as int, body, fuel);
                },
                _ => {},
            }
        },
        StmtV::If(c, then_e, else_e) => {
            lemma_expr_env_balanced(f, env, *c, fuel);
            let a = ev_expr(f, env, *c, fuel);
            lemma_expr_env_balanced(f, a.env, then_e, fuel);
            match else_e {
                Some(ee) => {
                    lemma_expr_env_balanced(f, a.env, ee, fuel);
                },
                None => {},
            }
        },
        StmtV::While(c, body) => {
            lemma_while_stmt_env_balanced(f, env, *c, body, fuel);
        },
    }
}

/// [`lemma_expr_env_balanced`] for a `for` statement.
pub proof fn lemma_for_env_balanced<F: Fn(FloatOp) -> u64>(
    f: F,
    env: Seq<Map<Seq<char>, ValueV>>,
    var: Seq<char>,
    i: int,
    hi: int,
    body: ExprV,
    fuel: nat,
)
    requires
        env.len() > 0,
    ensures
        env_balanced(env, ev_for(f, env, var, i, hi, body, fuel)),
    decreases fuel, body, 0int,
{
    if i < hi && fuel > 0 {
        let e1 = bind(env, var, ValueV::Int(i as i64));
        lemma_expr_env_balanced(f, e1, body, (fuel - 1) as nat);
        let a = ev_expr(f, e1, body, (fuel - 1) as nat);
        lemma_for_env_balanced(f, a.env, var, i + 1, hi, body, (fuel - 1) as nat);
    }
}

/// [`lemma_expr_env_balanced`] for a `while` statement.
pub proof fn lemma_while_stmt_env_balanced<F: Fn(FloatOp) -> u64>(
    f: F,
    env: Seq<Map<Seq<char>, ValueV>>,
    cond: ExprV,
    body: ExprV,
    fuel: nat,
)
    requires
        env.len() > 0 || !(declares_e(cond) || declares_e(body)),
    ensures
        env_balanced(env, ev_while_stmt(f, env, cond, body, fuel)),
    decreases fuel, body, 0int,
{
    if fuel > 0 {
        lemma_expr_env_balanced(f, env, cond, (fuel - 1) as nat);
        let a = ev_expr(f, env, cond, (fuel - 1) as nat);
        lemma_expr_env_balanced(f, a.env, body, (fuel - 1) as nat);
        let b = ev_expr(f, a.env, body, (fuel - 1) as nat);
        lemma_while_stmt_env_balanced(f, b.env, cond, body, (fuel - 1) as nat);
    }
}

// ----- environment operations -------------------------------------------------

/// The position of the innermost scope that has `name`.
fn innermost_with(env: &Env, name: &String) -> (r: Option<usize>)
    ensures
        match r {
            Some(i) => i < env.len() && env@[i as int]@.contains_key(name@) && forall|j: int|
                i < j < env.len() ==> !#[trigger] env@[j]@.contains_key(name@),
            None => forall|j: int| 0 <= j < env.len() ==> !#[trigger] env@[j]@.contains_key(name@),
        },
{
    let mut i: usize = env.len();
    while i > 0
        invariant
            i <= env.len(),
            forall|j: int| i <= j < env.len() ==> !#[trigger] env@[j]@.contains_key(name@),
        decreases i,
    {
        if env[i - 1].contains_key(name) {
            return Some(i - 1);
        }
        i -= 1;
    }
    None
}

/// Sets `name` to `v` in the innermost scope.
fn bind_last(env: &mut Env, name: &String, v: Value)
    requires
        old(env).len() > 0,
    ensures
        final(env).len() == old(env).len(),
        env_view(final(env)@) == bind(env_view(old(env)@), name@, v@),
{
    let n = env.len();
    let ghost before = env_view(env@);
    env[n - 1].insert(name.clone(), v);
    assert(env_view(env@) =~= bind(before, name@, v@));
}

/// Asks the float function.
pub(crate) fn ask<F: Fn(FloatOp) -> u64>(floats: &F, op: FloatOp) -> (r: u64)
    requires
        floats_ok(*floats),
    ensures
        r == float_of(*floats, op@),
{
    let ghost opv = op@;
    let ghost x = op;
    let r = floats(op);
    proof {
        let w: (FloatOp, u64) = (x, r);
        assert(w.0@ == opv && call_ensures(*floats, (w.0,), w.1));
        let p = choose|p: (FloatOp, u64)| p.0@ == opv && #[trigger] call_ensures(*floats, (p.0,), p.1);
        assert(p.0@ == opv && call_ensures(*floats, (p.0,), p.1));
    }
    r
}


// ----- operations on values ---------------------------------------------------

/// Equality of values.
#[verifier::loop_isolation(false)]
pub fn value_eq<F: Fn(FloatOp) -> u64>(a: &Value, b: &Value, floats: &F) -> (r: bool)
    requires
        floats_ok(*floats),
    ensures
        r == val_eq(*floats, a@, b@),
    decreases a,
{
    match (a, b) {
        (Value::Int(x), Value::Int(y)) => *x == *y,
        (Value::Float(x), Value::Float(y)) => ask(floats, FloatOp::Eq(*x, *y)) != 0,
        (Value::String(x), Value::String(y)) => *x == *y,
        (Value::Bool(x), Value::Bool(y)) => *x == *y,
        (Value::Struct(n1, f1), Value::Struct(n2, f2)) => {
            if *n1 != *n2 || f1.len() != f2.len() {
                assert(fields_view(f1@).len() == f1.len() && fields_view(f2@).len() == f2.len());
                return false;
            }
            let ghost v1 = fields_view(f1@);
            let ghost v2 = fields_view(f2@);
            let mut i: usize = f1.len();
            let mut all = true;
            // From the last field back, so that `all` is the rest's equality.
            while i > 0
                invariant
                    i <= f1.len(),
                    f1.len() == f2.len(),
                    v1 == fields_view(f1@),
                    v2 == fields_view(f2@),
                    all == fields_eq(*floats, v1, v2, i as int),
                decreases i,
            {
                i -= 1;
                proof {
                    assert(decreases_to!(*a => *f1));
                    assert(decreases_to!(*f1 => f1@));
                    assert(decreases_to!(f1@ => f1@[i as int]));
                    assert(decreases_to!(f1@[i as int] => f1@[i as int].1));
                }
                let e = f1[i].0 == f2[i].0 && value_eq(&f1[i].1, &f2[i].1, floats);
                all = e && all;
            }
            all
        },
        (Value::Undefined, Value::Undefined) => true,
        (Value::Break, Value::Break) => true,
        (Value::Continue, Value::Continue) => true,
        _ => false,
    }
}

fn type_error(op: BinOp) -> (m: String)
    ensures
        m@ == "Type error in "@ + op_symbol(op),
{
    let mut m = text("Type error in ");
    let s = match op {
        BinOp::Add => "+",
        BinOp::Sub => "-",
        BinOp::Mul => "*",
        BinOp::Div => "/",
        BinOp::Mod => "%",
        BinOp::Lt => "<",
        BinOp::Le => "<=",
        BinOp::Gt => ">",
        BinOp::Ge => ">=",
        BinOp::And => "&&",
        BinOp::Or => "||",
        BinOp::Xor => "^",
        BinOp::BitAnd => "&",
        BinOp::BitOr => "|",
        BinOp::Eq => "==",
        BinOp::Ne => "!=",
        BinOp::Assign => "=",
    };
    proof {
        reveal_strlit("+");
        reveal_strlit("-");
        reveal_strlit("*");
        reveal_strlit("/");
        reveal_strlit("%");
        reveal_strlit("<");
        reveal_strlit("<=");
        reveal_strlit(">");
        reveal_strlit(">=");
        reveal_strlit("&&");
        reveal_strlit("||");
        reveal_strlit("^");
        reveal_strlit("&");
        reveal_strlit("|");
        reveal_strlit("==");
        reveal_strlit("!=");
        reveal_strlit("=");
    }
    push_text(&mut m, s);
    m
}

/// `a op b` on integers, for the operators integers take.
fn int_op(op: BinOp, a: i64, b: i64) -> (r: Result<Value, String>)
    requires
        int_binop(op, a, b) is Some,
    ensures
        agrees(r, int_binop(op, a, b)->Some_0),
{
    match op {
        BinOp::Add => match a.checked_add(b) {
            Some(c) => Ok(Value::Int(c)),
            None => Err(text("attempt to add with overflow")),
        },
        BinOp::Sub => match a.checked_sub(b) {
            Some(c) => Ok(Value::Int(c)),
            None => Err(text("attempt to subtract with overflow")),
        },
        BinOp::Mul => match a.checked_mul(b) {
            Some(c) => Ok(Value::Int(c)),
            None => Err(text("attempt to multiply with overflow")),
        },
        BinOp::Div => if b == 0 {
            Err(text("attempt to divide by zero"))
        } else {
            match a.checked_div(b) {
                Some(c) => Ok(Value::Int(c)),
                None => Err(text("attempt to divide with overflow")),
            }
        },
        BinOp::Mod => if b == 0 {
            Err(text("attempt to calculate the remainder with a divisor of zero"))
        } else {
            match a.checked_rem(b) {
                Some(c) => Ok(Value::Int(c)),
                None => Err(text("attempt to calculate the remainder with overflow")),
            }
        },
        BinOp::Lt => Ok(Value::Bool(a < b)),
        BinOp::Le => Ok(Value::Bool(a <= b)),
        BinOp::Gt => Ok(Value::Bool(a > b)),
        BinOp::Ge => Ok(Value::Bool(a >= b)),
        BinOp::BitAnd => Ok(Value::Int(a & b)),
        _ => Ok(Value::Int(a | b)),
    }
}

/// `a op b` on floats, for the operators floats take.
fn float_op<F: Fn(FloatOp) -> u64>(floats: &F, op: BinOp, a: u64, b: u64) -> (r: Value)
    requires
        floats_ok(*floats),
        float_binop(*floats, op, a, b) is Some,
    ensures
        r@ == float_binop(*floats, op, a, b)->Some_0,
{
    match op {
        BinOp::Add => Value::Float(ask(floats, FloatOp::Add(a, b))),
        BinOp::Sub => Value::Float(ask(floats, FloatOp::Sub(a, b))),
        BinOp::Mul => Value::Float(ask(floats, FloatOp::Mul(a, b))),
        BinOp::Div => Value::Float(ask(floats, FloatOp::Div(a, b))),
        BinOp::Lt => Value::Bool(ask(floats, FloatOp::Lt(a, b)) != 0),
        BinOp::Le => Value::Bool(ask(floats, FloatOp::Le(a, b)) != 0),
        BinOp::Gt => Value::Bool(ask(floats, FloatOp::Gt(a, b)) != 0),
        _ => Value::Bool(ask(floats, FloatOp::Ge(a, b)) != 0),
    }
}

/// `l op r` for an operator other than `=`.
fn binop_exec<F: Fn(FloatOp) -> u64>(floats: &F, op: BinOp, l: Value, r: Value) -> (res: Result<Value, String>)
    requires
        floats_ok(*floats),
    ensures
        agrees(res, binop_value(*floats, op, l@, r@)),
{
    match op {
        BinOp::Eq => return Ok(Value::Bool(value_eq(&l, &r, floats))),
        BinOp::Ne => return Ok(Value::Bool(!value_eq(&l, &r, floats))),
        BinOp::And | BinOp::Or | BinOp::Xor => {
            return match (l, r) {
                (Value::Bool(a), Value::Bool(b)) => Ok(
                    Value::Bool(
                        match op {
                            BinOp::And => a && b,
                            BinOp::Or => a || b,
                            _ => a != b,
                        },
                    ),
                ),
                _ => Err(type_error(op)),
            };
        },
        _ => {},
    }
    match (l, r) {
        (Value::Int(a), Value::Int(b)) => match op {
            BinOp::Add | BinOp::Sub | BinOp::Mul | BinOp::Div | BinOp::Mod | BinOp::Lt | BinOp::Le
            | BinOp::Gt | BinOp::Ge | BinOp::BitAnd | BinOp::BitOr => int_op(op, a, b),
            _ => Err(type_error(op)),
        },
        (Value::Float(a), Value::Float(b)) => match op {
            BinOp::Add | BinOp::Sub | BinOp::Mul | BinOp::Div | BinOp::Lt | BinOp::Le | BinOp::Gt
            | BinOp::Ge => Ok(float_op(floats, op, a, b)),
            _ => Err(type_error(op)),
        },
        _ => Err(type_error(op)),
    }
}

/// `op v`.
fn unop_exec<F: Fn(FloatOp) -> u64>(floats: &F, op: UnaryOp, v: Value) -> (r: Result<Value, String>)
    requires
        floats_ok(*floats),
    ensures
        agrees(r, unop_value(*floats, op, v@)),
{
    match op {
        UnaryOp::Neg => match v {
            Value::Int(n) => if n == i64::MIN {
                Err(text("attempt to negate with overflow"))
            } else {
                Ok(Value::Int(-n))
            },
            Value::Float(x) => Ok(Value::Float(ask(floats, FloatOp::Neg(x)))),
            _ => Err(text("Type error in -")),
        },
        UnaryOp::Not => match v {
            Value::Bool(b) => Ok(Value::Bool(!b)),
            _ => Err(text("Type error in !")),
        },
        _ => {
            let mut m = text("Unknown unary op: ");
            let n = match op {
                UnaryOp::Deref => "Deref",
                _ => "Ref",
            };
            proof {
                reveal_strlit("Deref");
                reveal_strlit("Ref");
            }
            push_text(&mut m, n);
            Err(m)
        },
    }
}

/// Field `field` of `o`.
#[verifier::loop_isolation(false)]
fn field_exec(o: Value, field: &String) -> (r: Result<Value, String>)
    ensures
        agrees(r, field_value(o@, field@)),
{
    match o {
        Value::Struct(_, fs) => {
            let ghost fv = fields_view(fs@);
            let mut j: usize = 0;
            while j < fs.len()
                invariant
                    j <= fs.len(),
                    fv == fields_view(fs@),
                    forall|k: int| 0 <= k < j ==> #[trigger] fv[k].0 != field@,
                decreases fs.len() - j,
            {
                if fs[j].0 == *field {
                    proof {
                        lemma_field_of(fv, field@, j as int);
                    }
                    return Ok(copy_value(&fs[j].1));
                }
                j += 1;
            }
            proof {
                lemma_field_of(fv, field@, j as int);
            }
            let mut m = text("Field ");
            push_text(&mut m, field.as_str());
            push_text(&mut m, " not found");
            Err(m)
        },
        _ => Err(text("Cannot access field on non-struct")),
    }
}


// ----- evaluation -------------------------------------------------------------

/// Views of a list of values.
pub open spec fn values_view(vs: Seq<Value>) -> Seq<ValueV> {
    vs.map_values(|v: Value| v@)
}

/// The value a branch of an `if` expression gives.
fn branch_exec(fl: EvalResult) -> (v: Value)
    ensures
        v@ == branch_value(fl@),
{
    match fl {
        EvalResult::Value(v) => v,
        EvalResult::Return(v) => v,
        _ => Value::Undefined,
    }
}

fn budget_error() -> (m: String)
    ensures
        m@ == budget_msg(),
{
    text("Evaluation step limit reached")
}

fn undefined_variable(name: &String) -> (m: String)
    ensures
        m@ == "Undefined variable: "@ + name@,
{
    let mut m = text("Undefined variable: ");
    push_text(&mut m, name.as_str());
    m
}

/// The value of an outcome, or the outcome itself when it is no value.
fn lift_exec(r: Result<Value, String>) -> (o: Result<EvalResult, String>)
    ensures
        match r {
            Ok(v) => o matches Ok(EvalResult::Value(w)) && w@ == v@,
            Err(m) => o matches Err(n) && n@ == m@,
        },
{
    match r {
        Ok(v) => Ok(EvalResult::Value(v)),
        Err(m) => Err(m),
    }
}

/// Evaluates an expression with budget `fuel`.
fn eval_expr_impl<F: Fn(FloatOp) -> u64>(expr: &Expr, env: &mut Env, floats: &F, fuel: u64) -> (r: Result<EvalResult, String>)
    requires
        old(env).len() > 0 || !declares_e(expr@),
        floats_ok(*floats),
    ensures
        final(env).len() >= old(env).len(),
        ({
            let s = ev_expr(*floats, env_view(old(env)@), expr@, fuel as nat);
            env_view(final(env)@) == s.env && agrees(r, s.res)
        }),
    decreases fuel, expr, 1int,
{
    match expr {
        Expr::IntLiteral(n) => Ok(EvalResult::Value(Value::Int(*n))),
        Expr::FloatLiteral(s) => Ok(EvalResult::Value(Value::Float(ask(floats, FloatOp::Parse(s.clone()))))),
        Expr::StringLiteral(s) => Ok(EvalResult::Value(Value::String(s.clone()))),
        Expr::Ident(name) => match innermost_with(env, name) {
            Some(i) => {
                proof {
                    lemma_val_innermost(env_view(env@), name@, ValueV::Undefined, i as int);
                }
                match env[i].get(name) {
                    Some(v) => Ok(EvalResult::Value(copy_value(v))),
                    None => Err(undefined_variable(name)),
                }
            },
            None => {
                proof {
                    lemma_val_absent(env_view(env@), name@, ValueV::Undefined);
                }
                Err(undefined_variable(name))
            },
        },
        Expr::BinaryOp(l, op, r) => {
            let lv = match eval_expr_impl(l, env, floats, fuel) {
                Ok(EvalResult::Value(v)) => v,
                Ok(fl) => return Ok(fl),
                Err(m) => return Err(m),
            };
            let rv = match eval_expr_impl(r, env, floats, fuel) {
                Ok(EvalResult::Value(v)) => v,
                Ok(fl) => return Ok(fl),
                Err(m) => return Err(m),
            };
            if *op == BinOp::Assign {
                match &**l {
                    Expr::Ident(name) => match innermost_with(env, name) {
                        Some(i) => {
                            proof {
                                lemma_val_innermost(env_view(env@), name@, rv@, i as int);
                            }
                            let ghost before = env_view(env@);
                            env[i].insert(name.clone(), copy_value(&rv));
                            assert(env_view(env@) =~= before.update(i as int, before[i as int].insert(name@, rv@)));
                            Ok(EvalResult::Value(rv))
                        },
                        None => {
                            proof {
                                lemma_val_absent(env_view(env@), name@, rv@);
                            }
                            Err(undefined_variable(name))
                        },
                    },
                    _ => Err(text("Invalid assignment target")),
                }
            } else {
                lift_exec(binop_exec(floats, *op, lv, rv))
            }
        },
        Expr::UnaryOp(op, x) => {
            let v = match eval_expr_impl(x, env, floats, fuel) {
                Ok(EvalResult::Value(v)) => v,
                Ok(fl) => return Ok(fl),
                Err(m) => return Err(m),
            };
            lift_exec(unop_exec(floats, *op, v))
        },
        Expr::Call(name, args) => eval_call(name, args, env, floats, fuel),
        Expr::StructInit(name, inits) => eval_init(name, inits, env, floats, fuel),
        Expr::FieldAccess(obj, field) => {
            let o = match eval_expr_impl(obj, env, floats, fuel) {
                Ok(EvalResult::Value(v)) => v,
                Ok(fl) => return Ok(fl),
                Err(m) => return Err(m),
            };
            lift_exec(field_exec(o, field))
        },
        Expr::Block(stmts) => {
            let ghost before = env_view(env@);
            env.push(NameMap::new());
            assert(env_view(env@) =~= before.push(Map::empty()));
            eval_block(stmts, env, floats, fuel)
        },
        Expr::If(c, then_s, else_s) => {
            let cv = match eval_expr_impl(c, env, floats, fuel) {
                Ok(EvalResult::Value(v)) => v,
                Ok(fl) => return Ok(fl),
                Err(m) => return Err(m),
            };
            let branch = match cv {
                Value::Bool(true) => &**then_s,
                Value::Bool(false) => match else_s {
                    Some(es) => &**es,
                    None => return Ok(EvalResult::Value(Value::Undefined)),
                },
                _ => return Err(text("Condition must be bool")),
            };
            match eval_stmt_impl(branch, env, floats, fuel) {
                Ok(EvalResult::Return(v)) => Ok(EvalResult::Return(v)),
                Ok(fl) => Ok(EvalResult::Value(branch_exec(fl))),
                Err(m) => Err(m),
            }
        },
        Expr::While(c, body) => eval_loop(c, body, env, floats, fuel),
        Expr::Return(v) => match v {
            Some(x) => match eval_expr_impl(x, env, floats, fuel) {
                Ok(fl) => Ok(EvalResult::Return(branch_exec(fl))),
                Err(m) => Err(m),
            },
            None => Ok(EvalResult::Return(Value::Undefined)),
        },
        Expr::Break => Err(text("Break outside loop")),
        Expr::Continue => Err(text("Continue outside loop")),
    }
}

/// A call: the arguments, then the body of the function in a copy of the
/// environment with one more scope, holding the parameters.
#[verifier::loop_isolation(false)]
fn eval_call<F: Fn(FloatOp) -> u64>(
    name: &String,
    args: &Vec<Expr>,
    env: &mut Env,
    floats: &F,
    fuel: u64,
) -> (r: Result<EvalResult, String>)
    requires
        old(env).len() > 0 || !declares_args(exprs_view(args@), 0),
        floats_ok(*floats),
    ensures
        final(env).len() >= old(env).len(),
        ({
            let s = ev_expr(*floats, env_view(old(env)@), ExprV::Call(name@, exprs_view(args@)), fuel as nat);
            env_view(final(env)@) == s.env && agrees(r, s.res)
        }),
    decreases fuel, args, 0int,
{
    let ghost av = exprs_view(args@);
    let ghost e0 = env_view(env@);
    let mut vals: Vec<Value> = Vec::new();
    let mut i: usize = 0;
    assert(values_view(vals@) =~= Seq::<ValueV>::empty());
    while i < args.len()
        invariant
            env.len() >= old(env).len(),
            i <= args.len(),
            av == exprs_view(args@),
            old(env).len() > 0 || !declares_args(av, i as int),
            ev_args(*floats, e0, av, 0, Seq::empty(), fuel as nat) == ev_args(
                *floats,
                env_view(env@),
                av,
                i as int,
                values_view(vals@),
                fuel as nat,
            ),
        decreases args.len() - i,
    {
        proof {
            assert(decreases_to!(*args => args@));
            assert(decreases_to!(args@ => args@[i as int]));
        }
        let v = match eval_expr_impl(&args[i], env, floats, fuel) {
            Ok(EvalResult::Value(v)) => v,
            Ok(fl) => return Ok(EvalResult::Return(branch_exec(fl))),
            Err(m) => return Err(m),
        };
        let ghost before = vals@;
        vals.push(v);
        assert(values_view(vals@) =~= values_view(before).push(v@));
        i += 1;
    }
    let ghost ea = env_view(env@);
    let ghost vv = values_view(vals@);
    // The innermost scope in which `name` names a function.
    let mut k: usize = env.len();
    let mut found: Option<(Vec<String>, Expr)> = None;
    while k > 0
        invariant
            k <= env.len(),
            ea == env_view(env@),
            found is None,
            forall|j: int|
                k <= j < env.len() ==> !(#[trigger] ea[j].contains_key(name@) && ea[j][name@] is Func),
        decreases k,
    {
        match env[k - 1].get(name) {
            Some(Value::Func(ps, body, _)) => {
                found = Some((copy_strings(ps), copy_expr(body)));
                break;
            },
            _ => {},
        }
        k -= 1;
    }
    let (params, body) = match found {
        Some(pb) => pb,
        None => {
            proof {
                lemma_find_func(ea, name@, -1);
            }
            let mut m = text("Undefined function: ");
            push_text(&mut m, name.as_str());
            return Err(m);
        },
    };
    proof {
        lemma_find_func(ea, name@, k - 1);
    }
    if fuel == 0 {
        return Err(budget_error());
    }
    let ghost pv = strings_view(params@);
    let mut scope: NameMap<Value> = NameMap::new();
    let mut j: usize = 0;
    while j < params.len()
        invariant
            j <= params.len(),
            pv == strings_view(params@),
            vv == values_view(vals@),
            scope@ == bind_params(pv, vv, j as int),
        decreases params.len() - j,
    {
        let a = if j < vals.len() {
            copy_value(&vals[j])
        } else {
            Value::Undefined
        };
        scope.insert(params[j].clone(), a);
        j += 1;
    }
    let mut call_env = copy_env(env);
    let ghost ce = env_view(call_env@);
    call_env.push(scope);
    assert(env_view(call_env@) =~= ce.push(bind_params(pv, vv, pv.len() as int)));
    match eval_expr_impl(&body, &mut call_env, floats, fuel - 1) {
        Ok(fl) => Ok(EvalResult::Value(branch_exec(fl))),
        Err(m) => Err(m),
    }
}

/// A struct literal: the field initialisers in order.
#[verifier::loop_isolation(false)]
fn eval_init<F: Fn(FloatOp) -> u64>(
    name: &String,
    inits: &Vec<(String, Expr)>,
    env: &mut Env,
    floats: &F,
    fuel: u64,
) -> (r: Result<EvalResult, String>)
    requires
        old(env).len() > 0 || !declares_inits(inits_view(inits@), 0),
        floats_ok(*floats),
    ensures
        final(env).len() >= old(env).len(),
        ({
            let s = ev_expr(
                *floats,
                env_view(old(env)@),
                ExprV::StructInit(name@, inits_view(inits@)),
                fuel as nat,
            );
            env_view(final(env)@) == s.env && agrees(r, s.res)
        }),
    decreases fuel, inits, 0int,
{
    let ghost iv = inits_view(inits@);
    let ghost e0 = env_view(env@);
    let mut fs: Vec<(String, Value)> = Vec::new();
    let mut i: usize = 0;
    assert(fields_view(fs@) =~= Seq::<(Seq<char>, ValueV)>::empty());
    while i < inits.len()
        invariant
            env.len() >= old(env).len(),
            i <= inits.len(),
            iv == inits_view(inits@),
            old(env).len() > 0 || !declares_inits(iv, i as int),
            ev_inits(*floats, e0, iv, 0, Seq::empty(), fuel as nat) == ev_inits(
                *floats,
                env_view(env@),
                iv,
                i as int,
                fields_view(fs@),
                fuel as nat,
            ),
        decreases inits.len() - i,
    {
        proof {
            assert(decreases_to!(*inits => inits@));
            assert(decreases_to!(inits@ => inits@[i as int]));
            assert(decreases_to!(inits@[i as int] => inits@[i as int].1));
        }
        let v = match eval_expr_impl(&inits[i].1, env, floats, fuel) {
            Ok(EvalResult::Value(v)) => v,
            Ok(fl) => return Ok(EvalResult::Return(branch_exec(fl))),
            Err(m) => return Err(m),
        };
        let ghost before = fs@;
        fs.push((inits[i].0.clone(), v));
        assert(fields_view(fs@) =~= fields_view(before).push((inits@[i as int].0@, v@)));
        i += 1;
    }
    Ok(EvalResult::Value(Value::Struct(name.clone(), fs)))
}

/// The statements of a block whose scope is the innermost one.
#[verifier::loop_isolation(false)]
fn eval_block<F: Fn(FloatOp) -> u64>(stmts: &Vec<Stmt>, env: &mut Env, floats: &F, fuel: u64) -> (r: Result<EvalResult, String>)
    requires
        old(env).len() > 0,
        floats_ok(*floats),
    ensures
        final(env).len() >= old(env).len() - 1,
        ({
            let s = ev_block(
                *floats,
                env_view(old(env)@),
                stmts_view(stmts@),
                0,
                ValueV::Undefined,
                fuel as nat,
            );
            env_view(final(env)@) == s.env && agrees(r, s.res)
        }),
    decreases fuel, stmts, 0int,
{
    let ghost sv = stmts_view(stmts@);
    let ghost e0 = env_view(env@);
    let mut result = Value::Undefined;
    let mut i: usize = 0;
    while i < stmts.len()
        invariant
            env.len() >= old(env).len(),
            i <= stmts.len(),
            sv == stmts_view(stmts@),
            ev_block(*floats, e0, sv, 0, ValueV::Undefined, fuel as nat) == ev_block(
                *floats,
                env_view(env@),
                sv,
                i as int,
                result@,
                fuel as nat,
            ),
        decreases stmts.len() - i,
    {
        proof {
            assert(decreases_to!(*stmts => stmts@));
            assert(decreases_to!(stmts@ => stmts@[i as int]));
        }
        let fl = match eval_stmt_impl(&stmts[i], env, floats, fuel) {
            Ok(fl) => fl,
            Err(m) => return Err(m),
        };
        match fl {
            EvalResult::Return(v) => {
                let ghost before = env_view(env@);
                env.pop();
                assert(env_view(env@) =~= before.drop_last());
                return Ok(EvalResult::Return(v));
            },
            EvalResult::Value(v) => {
                result = v;
            },
            _ => {
                let ghost before = env_view(env@);
                env.pop();
                assert(env_view(env@) =~= before.drop_last());
                return Ok(EvalResult::Value(result));
            },
        }
        i += 1;
    }
    let ghost before = env_view(env@);
    env.pop();
    assert(env_view(env@) =~= before.drop_last());
    Ok(EvalResult::Value(result))
}

/// A `while` expression.
#[verifier::loop_isolation(false)]
fn eval_loop<F: Fn(FloatOp) -> u64>(cond: &Expr, body: &Stmt, env: &mut Env, floats: &F, fuel: u64) -> (r: Result<EvalResult, String>)
    requires
        old(env).len() > 0 || !(declares_e(cond@) || declares_s(body@)),
        floats_ok(*floats),
    ensures
        final(env).len() >= old(env).len(),
        ({
            let s = ev_loop(*floats, env_view(old(env)@), cond@, body@, fuel as nat);
            env_view(final(env)@) == s.env && agrees(r, s.res)
        }),
    decreases fuel, body, 0int,
{
    let ghost e0 = env_view(env@);
    let mut left = fuel;
    loop
        invariant
            env.len() >= old(env).len(),
            left <= fuel,
            ev_loop(*floats, e0, cond@, body@, fuel as nat) == ev_loop(
                *floats,
                env_view(env@),
                cond@,
                body@,
                left as nat,
            ),
        decreases left,
    {
        if left == 0 {
            return Err(budget_error());
        }
        let c = match eval_expr_impl(cond, env, floats, left - 1) {
            Ok(EvalResult::Value(v)) => v,
            Ok(fl) => return Ok(fl),
            Err(m) => return Err(m),
        };
        match c {
            Value::Bool(true) => {},
            Value::Bool(false) => return Ok(EvalResult::Value(Value::Undefined)),
            _ => return Err(text("Condition must be bool")),
        }
        match eval_stmt_impl(body, env, floats, left - 1) {
            Ok(EvalResult::Return(v)) => return Ok(EvalResult::Return(v)),
            Ok(EvalResult::Break) => return Ok(EvalResult::Value(Value::Undefined)),
            Ok(_) => {},
            Err(m) => return Err(m),
        }
        left = left - 1;
    }
}

/// Evaluates a statement with budget `fuel`.
fn eval_stmt_impl<F: Fn(FloatOp) -> u64>(stmt: &Stmt, env: &mut Env, floats: &F, fuel: u64) -> (r: Result<EvalResult, String>)
    requires
        old(env).len() > 0 || !declares_s(stmt@),
        floats_ok(*floats),
    ensures
        final(env).len() >= old(env).len(),
        ({
            let s = ev_stmt(*floats, env_view(old(env)@), stmt@, fuel as nat);
            env_view(final(env)@) == s.env && agrees(r, s.res)
        }),
    decreases fuel, stmt, 1int,
{
    match stmt {
        Stmt::Let(name, _, x) | Stmt::Const(name, _, x) => {
            let v = match eval_expr_impl(x, env, floats, fuel) {
                Ok(EvalResult::Value(v)) => v,
                Ok(fl) => return Ok(fl),
                Err(m) => return Err(m),
            };
            bind_last(env, name, v);
            Ok(EvalResult::Value(Value::Undefined))
        },
        Stmt::Mut(name, x) => {
            let v = match eval_expr_impl(x, env, floats, fuel) {
                Ok(EvalResult::Value(v)) => v,
                Ok(fl) => return Ok(fl),
                Err(m) => return Err(m),
            };
            if env.len() > 0 {
                bind_last(env, name, v);
            }
            Ok(EvalResult::Value(Value::Undefined))
        },
        Stmt::Expr(x) => eval_expr_impl(x, env, floats, fuel),
        Stmt::Return(v) => match v {
            Some(x) => match eval_expr_impl(x, env, floats, fuel) {
                Ok(fl) => Ok(EvalResult::Return(branch_exec(fl))),
                Err(m) => Err(m),
            },
            None => Ok(EvalResult::Return(Value::Undefined)),
        },
        Stmt::Item(it) => {
            match eval_item(it, env) {
                Ok(()) => {},
                Err(m) => return Err(m),
            }
            Ok(EvalResult::Value(Value::Undefined))
        },
        Stmt::For(var, start, end, body) => {
            let sv = match eval_expr_impl(start, env, floats, fuel) {
                Ok(EvalResult::Value(v)) => v,
                Ok(fl) => return Ok(fl),
                Err(m) => return Err(m),
            };
            let ev = match eval_expr_impl(end, env, floats, fuel) {
                Ok(EvalResult::Value(v)) => v,
                Ok(fl) => return Ok(fl),
                Err(m) => return Err(m),
            };
            let lo = match sv {
                Value::Int(n) => n,
                _ => return Err(text("For loop start must be int")),
            };
            let hi = match ev {
                Value::Int(n) => n,
                _ => return Err(text("For loop end must be int")),
            };
            eval_for(var, lo, hi, body, env, floats, fuel)
        },
        Stmt::If(c, then_e, else_e) => {
            let cv = match eval_expr_impl(c, env, floats, fuel) {
                Ok(EvalResult::Value(v)) => v,
                Ok(fl) => return Ok(fl),
                Err(m) => return Err(m),
            };
            match cv {
                Value::Bool(true) => eval_expr_impl(then_e, env, floats, fuel),
                Value::Bool(false) => match else_e {
                    Some(ee) => eval_expr_impl(ee, env, floats, fuel),
                    None => Ok(EvalResult::Value(Value::Undefined)),
                },
                _ => Err(text("Condition must be bool")),
            }
        },
        Stmt::While(c, body) => eval_while_stmt(c, body, env, floats, fuel),
    }
}

/// A `for` statement over `lo..hi`.
#[verifier::loop_isolation(false)]
fn eval_for<F: Fn(FloatOp) -> u64>(
    var: &String,
    lo: i64,
    hi: i64,
    body: &Expr,
    env: &mut Env,
    floats: &F,
    fuel: u64,
) -> (r: Result<EvalResult, String>)
    requires
        old(env).len() > 0,
        floats_ok(*floats),
    ensures
        final(env).len() >= old(env).len(),
        ({
            let s = ev_for(*floats, env_view(old(env)@), var@, lo as int, hi as int, body@, fuel as nat);
            env_view(final(env)@) == s.env && agrees(r, s.res)
        }),
    decreases fuel, body, 0int,
{
    let ghost e0 = env_view(env@);
    let mut left = fuel;
    let mut i = lo;
    while i < hi
        invariant
            env.len() >= old(env).len(),
            left <= fuel,
            lo <= i,
            ev_for(*floats, e0, var@, lo as int, hi as int, body@, fuel as nat) == ev_for(
                *floats,
                env_view(env@),
                var@,
                i as int,
                hi as int,
                body@,
                left as nat,
            ),
        decreases hi - i,
    {
        if left == 0 {
            return Err(budget_error());
        }
        bind_last(env, var, Value::Int(i));
        match eval_expr_impl(body, env, floats, left - 1) {
            Ok(EvalResult::Return(v)) => return Ok(EvalResult::Return(v)),
            Ok(_) => {},
            Err(m) => return Err(m),
        }
        left = left - 1;
        i = i + 1;
    }
    Ok(EvalResult::Value(Value::Undefined))
}

/// A `while` statement.
#[verifier::loop_isolation(false)]
fn eval_while_stmt<F: Fn(FloatOp) -> u64>(cond: &Expr, body: &Expr, env: &mut Env, floats: &F, fuel: u64) -> (r: Result<EvalResult, String>)
    requires
        old(env).len() > 0 || !(declares_e(cond@) || declares_e(body@)),
        floats_ok(*floats),
    ensures
        final(env).len() >= old(env).len(),
        ({
            let s = ev_while_stmt(*floats, env_view(old(env)@), cond@, body@, fuel as nat);
            env_view(final(env)@) == s.env && agrees(r, s.res)
        }),
    decreases fuel, body, 0int,
{
    let ghost e0 = env_view(env@);
    let mut left = fuel;
    loop
        invariant
            env.len() >= old(env).len(),
            left <= fuel,
            ev_while_stmt(*floats, e0, cond@, body@, fuel as nat) == ev_while_stmt(
                *floats,
                env_view(env@),
                cond@,
                body@,
                left as nat,
            ),
        decreases left,
    {
        if left == 0 {
            return Err(budget_error());
        }
        let c = match eval_expr_impl(cond, env, floats, left - 1) {
            Ok(EvalResult::Value(v)) => v,
            Ok(fl) => return Ok(fl),
            Err(m) => return Err(m),
        };
        match c {
            Value::Bool(true) => {},
            Value::Bool(false) => return Ok(EvalResult::Value(Value::Undefined)),
            _ => return Err(text("Condition must be bool")),
        }
        match eval_expr_impl(body, env, floats, left - 1) {
            Ok(EvalResult::Return(v)) => return Ok(EvalResult::Return(v)),
            Ok(_) => {},
            Err(m) => return Err(m),
        }
        left = left - 1;
    }
}

/// Declares an item: a function is bound, by name, in the innermost scope,
/// which must exist; structs and imports need no scope.
pub fn eval_item(item: &Item, env: &mut Env) -> (r: Result<(), String>)
    requires
        item is Fn ==> old(env).len() > 0,
    ensures
        r is Ok,
        final(env).len() == old(env).len(),
        env_view(final(env)@) == item_env(env_view(old(env)@), item@),
{
    match item {
        Item::Fn { name, params, ret: _, body } => {
            let mut names: Vec<String> = Vec::new();
            let mut i: usize = 0;
            while i < params.len()
                invariant
                    i <= params.len(),
                    names.len() == i,
                    forall|k: int| 0 <= k < i ==> #[trigger] names@[k]@ == params@[k].0@,
                decreases params.len() - i,
            {
                names.push(params[i].0.clone());
                i += 1;
            }
            let caps: Vec<String> = Vec::new();
            assert(strings_view(names@) =~= item@->Fn_params.map_values(|p: (Seq<char>, crate::ast::TypeV)| p.0));
            assert(strings_view(caps@) =~= Seq::<Seq<char>>::empty());
            let f = Value::Func(names, Box::new(copy_expr(body)), caps);
            bind_last(env, name, f);
        },
        _ => {},
    }
    Ok(())
}

/// How deep `eval_expr_with_depth` may be asked to start.
pub const MAX_RECURSION_DEPTH: usize = 50;

/// Evaluates an expression, unless `depth` is past [`MAX_RECURSION_DEPTH`].
/// A `return` in it ends the evaluation with the value returned.
pub fn eval_expr_with_depth<F: Fn(FloatOp) -> u64>(
    expr: &Expr,
    env: &mut Env,
    depth: usize,
    floats: &F,
) -> (r: Result<Value, String>)
    requires
        old(env).len() > 0 || !declares_e(expr@),
        floats_ok(*floats),
    ensures
        final(env).len() >= old(env).len(),
        depth > MAX_RECURSION_DEPTH ==> env_view(final(env)@) == env_view(old(env)@) && agrees(
            r,
            Err::<ValueV, Seq<char>>("Maximum recursion depth exceeded"@),
        ),
        depth <= MAX_RECURSION_DEPTH ==> ({
            let s = ev_expr(*floats, env_view(old(env)@), expr@, u64::MAX as nat);
            env_view(final(env)@) == s.env && agrees(r, as_value(s.res))
        }),
{
    if depth > MAX_RECURSION_DEPTH {
        return Err(text("Maximum recursion depth exceeded"));
    }
    match eval_expr_impl(expr, env, floats, u64::MAX) {
        Ok(fl) => Ok(branch_exec(fl)),
        Err(m) => Err(m),
    }
}

/// Evaluates an expression. A `return` in it ends the evaluation with the
/// value returned. The environment may be empty unless the expression
/// declares a name outside any block ([`declares_e`]).
pub fn eval_expr<F: Fn(FloatOp) -> u64>(expr: &Expr, env: &mut Env, floats: &F) -> (r: Result<Value, String>)
    requires
        old(env).len() > 0 || !declares_e(expr@),
        floats_ok(*floats),
    ensures
        final(env).len() >= old(env).len(),
        ({
            let s = ev_expr(*floats, env_view(old(env)@), expr@, u64::MAX as nat);
            env_view(final(env)@) == s.env && agrees(r, as_value(s.res))
        }),
{
    eval_expr_with_depth(expr, env, 0, floats)
}

/// Evaluates a statement. The environment may be empty unless the
/// statement declares a name outside any block ([`declares_s`]).
pub fn eval_stmt<F: Fn(FloatOp) -> u64>(stmt: &Stmt, env: &mut Env, floats: &F) -> (r: Result<EvalResult, String>)
    requires
        old(env).len() > 0 || !declares_s(stmt@),
        floats_ok(*floats),
    ensures
        final(env).len() >= old(env).len(),
        ({
            let s = ev_stmt(*floats, env_view(old(env)@), stmt@, u64::MAX as nat);
            env_view(final(env)@) == s.env && agrees(r, s.res)
        }),
{
    eval_stmt_impl(stmt, env, floats, u64::MAX)
}

} // verus!
