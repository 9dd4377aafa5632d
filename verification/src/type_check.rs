//! Type checking of items.
//!
//! The checker's state is a stack of scopes (innermost last), the functions
//! declared so far and the structs declared so far. Its behaviour is
//! specified by [`t_expr`], [`t_stmt`] and [`t_item`]: functions from a state
//! and a piece of syntax to the state afterwards and a result. The state is
//! specified on errors too: an error leaves behind the scopes that were
//! opened before it, as the checker does.

use vstd::prelude::*;
use crate::ast::{
    BinOp, Expr, ExprV, Item, ItemV, PrimType, Stmt, StmtV, Type, TypeV, UnaryOp, copy_named_types,
    copy_types, exprs_view, inits_view, items_view, named_types_view, opt_type_view, stmts_view, type_eq, type_view,
    types_view,
};
use crate::names::NameMap;
use crate::text::{debug_quoted, dec_text, push_text, str_debug, text, usize_text};

verus! {

broadcast use vstd::string::group_string_axioms;

// ----- texts --------------------------------------------------------------

/// The name `Debug` prints for a primitive type.
pub open spec fn prim_name(p: PrimType) -> Seq<char> {
    match p {
        PrimType::Int => "Int"@,
        PrimType::Int8 => "Int8"@,
        PrimType::Int16 => "Int16"@,
        PrimType::Int32 => "Int32"@,
        PrimType::Int64 => "Int64"@,
        PrimType::UInt => "UInt"@,
        PrimType::UInt8 => "UInt8"@,
        PrimType::UInt16 => "UInt16"@,
        PrimType::UInt32 => "UInt32"@,
        PrimType::UInt64 => "UInt64"@,
        PrimType::Float => "Float"@,
        PrimType::Float32 => "Float32"@,
        PrimType::Float64 => "Float64"@,
        PrimType::Bool => "Bool"@,
        PrimType::Char => "Char"@,
        PrimType::String => "String"@,
    }
}

/// The name `Debug` prints for a binary operator.
pub open spec fn binop_name(op: BinOp) -> Seq<char> {
    match op {
        BinOp::Add => "Add"@,
        BinOp::Sub => "Sub"@,
        BinOp::Mul => "Mul"@,
        BinOp::Div => "Div"@,
        BinOp::Mod => "Mod"@,
        BinOp::Eq => "Eq"@,
        BinOp::Ne => "Ne"@,
        BinOp::Lt => "Lt"@,
        BinOp::Le => "Le"@,
        BinOp::Gt => "Gt"@,
        BinOp::Ge => "Ge"@,
        BinOp::And => "And"@,
        BinOp::Or => "Or"@,
        BinOp::Xor => "Xor"@,
        BinOp::BitAnd => "BitAnd"@,
        BinOp::BitOr => "BitOr"@,
        BinOp::Assign => "Assign"@,
    }
}

/// The name `Debug` prints for a unary operator.
pub open spec fn unop_name(op: UnaryOp) -> Seq<char> {
    match op {
        UnaryOp::Neg => "Neg"@,
        UnaryOp::Not => "Not"@,
        UnaryOp::Deref => "Deref"@,
        UnaryOp::Ref => "Ref"@,
    }
}

/// The text `Debug` prints for a type.
pub open spec fn type_debug(t: TypeV) -> Seq<char>
    decreases t, 0int,
{
    match t {
        TypeV::Prim(p) => "Prim("@ + prim_name(p) + ")"@,
        TypeV::Struct(s) => "Struct("@ + str_debug(s) + ")"@,
        TypeV::Fn(r, args) => "Fn("@ + type_debug(*r) + ", "@ + list_debug(args) + ")"@,
        TypeV::ForeignPtr(x) => "ForeignPtr("@ + type_debug(*x) + ")"@,
        TypeV::Slice(x) => "Slice("@ + type_debug(*x) + ")"@,
        TypeV::Ptr(x) => "Ptr("@ + type_debug(*x) + ")"@,
        TypeV::Unit => "Unit"@,
    }
}

/// The text `Debug` prints for a list of types, in brackets.
pub open spec fn list_debug(ts: Seq<TypeV>) -> Seq<char>
    decreases ts, ts.len() + 2,
{
    "["@ + items_debug(ts, ts.len() as int) + "]"@
}

/// The `Debug` texts of the first `n` types of `ts`, separated by `, `.
pub open spec fn items_debug(ts: Seq<TypeV>, n: int) -> Seq<char>
    decreases ts, if n < 0 { 0 } else { n + 1 },
{
    if n <= 0 || n > ts.len() {
        Seq::empty()
    } else if n == 1 {
        type_debug(ts[0])
    } else {
        items_debug(ts, n - 1) + ", "@ + type_debug(ts[n - 1])
    }
}

/// The text `Display` prints for a type.
pub open spec fn type_text(t: TypeV) -> Seq<char> {
    match t {
        TypeV::Prim(p) => prim_name(p),
        TypeV::Struct(name) => name,
        TypeV::Fn(args, ret) => "fn("@ + type_debug(*args) + ") -> "@ + list_debug(ret),
        TypeV::ForeignPtr(x) => "*"@ + type_debug(*x),
        TypeV::Slice(x) => "["@ + type_debug(*x) + "]"@,
        TypeV::Ptr(x) => "*"@ + type_debug(*x),
        TypeV::Unit => "()"@,
    }
}

/// The text of a primitive type's name.
fn prim_text(p: PrimType) -> (s: String)
    ensures
        s@ == prim_name(p),
{
    match p {
        PrimType::Int => text("Int"),
        PrimType::Int8 => text("Int8"),
        PrimType::Int16 => text("Int16"),
        PrimType::Int32 => text("Int32"),
        PrimType::Int64 => text("Int64"),
        PrimType::UInt => text("UInt"),
        PrimType::UInt8 => text("UInt8"),
        PrimType::UInt16 => text("UInt16"),
        PrimType::UInt32 => text("UInt32"),
        PrimType::UInt64 => text("UInt64"),
        PrimType::Float => text("Float"),
        PrimType::Float32 => text("Float32"),
        PrimType::Float64 => text("Float64"),
        PrimType::Bool => text("Bool"),
        PrimType::Char => text("Char"),
        PrimType::String => text("String"),
    }
}

/// The text of a binary operator's name.
fn binop_text(op: BinOp) -> (s: String)
    ensures
        s@ == binop_name(op),
{
    match op {
        BinOp::Add => text("Add"),
        BinOp::Sub => text("Sub"),
        BinOp::Mul => text("Mul"),
        BinOp::Div => text("Div"),
        BinOp::Mod => text("Mod"),
        BinOp::Eq => text("Eq"),
        BinOp::Ne => text("Ne"),
        BinOp::Lt => text("Lt"),
        BinOp::Le => text("Le"),
        BinOp::Gt => text("Gt"),
        BinOp::Ge => text("Ge"),
        BinOp::And => text("And"),
        BinOp::Or => text("Or"),
        BinOp::Xor => text("Xor"),
        BinOp::BitAnd => text("BitAnd"),
        BinOp::BitOr => text("BitOr"),
        BinOp::Assign => text("Assign"),
    }
}

/// The text of a unary operator's name.
fn unop_text(op: UnaryOp) -> (s: String)
    ensures
        s@ == unop_name(op),
{
    match op {
        UnaryOp::Neg => text("Neg"),
        UnaryOp::Not => text("Not"),
        UnaryOp::Deref => text("Deref"),
        UnaryOp::Ref => text("Ref"),
    }
}

/// The `Debug` text of a type.
fn type_debug_text(t: &Type) -> (s: String)
    ensures
        s@ == type_debug(t@),
    decreases t,
{
    match t {
        Type::Prim(p) => {
            let mut s = text("Prim(");
            let n = prim_text(*p);
            push_text(&mut s, n.as_str());
            push_text(&mut s, ")");
            s
        },
        Type::Struct(name) => {
            let mut s = text("Struct(");
            let q = debug_quoted(name.as_str());
            push_text(&mut s, q.as_str());
            push_text(&mut s, ")");
            s
        },
        Type::Fn(r, args) => {
            let mut s = text("Fn(");
            let d = type_debug_text(r);
            push_text(&mut s, d.as_str());
            push_text(&mut s, ", ");
            proof {
                assert(decreases_to!(*t => *args));
            }
            let l = list_debug_text(args);
            push_text(&mut s, l.as_str());
            push_text(&mut s, ")");
            s
        },
        Type::ForeignPtr(x) => {
            let mut s = text("ForeignPtr(");
            let d = type_debug_text(x);
            push_text(&mut s, d.as_str());
            push_text(&mut s, ")");
            s
        },
        Type::Slice(x) => {
            let mut s = text("Slice(");
            let d = type_debug_text(x);
            push_text(&mut s, d.as_str());
            push_text(&mut s, ")");
            s
        },
        Type::Ptr(x) => {
            let mut s = text("Ptr(");
            let d = type_debug_text(x);
            push_text(&mut s, d.as_str());
            push_text(&mut s, ")");
            s
        },
        Type::Unit => text("Unit"),
    }
}

/// The `Debug` text of a list of types.
fn list_debug_text(ts: &Vec<Type>) -> (s: String)
    ensures
        s@ == list_debug(types_view(ts@)),
    decreases ts,
{
    let ghost tv = types_view(ts@);
    let mut s = text("[");
    let mut i: usize = 0;
    while i < ts.len()
        invariant
            i <= ts.len(),
            tv == types_view(ts@),
            s@ == "["@ + items_debug(tv, i as int),
        decreases ts.len() - i,
    {
        if i > 0 {
            push_text(&mut s, ", ");
        }
        proof {
            assert(decreases_to!(*ts => ts@));
            assert(decreases_to!(ts@ => ts@[i as int]));
        }
        let d = type_debug_text(&ts[i]);
        push_text(&mut s, d.as_str());
        i += 1;
        assert(s@ =~= "["@ + items_debug(tv, i as int));
    }
    push_text(&mut s, "]");
    s
}

/// The `Display` text of a type.
fn type_text_of(t: &Type) -> (s: String)
    ensures
        s@ == type_text(t@),
{
    match t {
        Type::Prim(p) => prim_text(*p),
        Type::Struct(name) => name.clone(),
        Type::Fn(args, ret) => {
            let mut s = text("fn(");
            let d = type_debug_text(args);
            push_text(&mut s, d.as_str());
            push_text(&mut s, ") -> ");
            let l = list_debug_text(ret);
            push_text(&mut s, l.as_str());
            s
        },
        Type::ForeignPtr(x) => {
            let mut s = text("*");
            let d = type_debug_text(x);
            push_text(&mut s, d.as_str());
            s
        },
        Type::Slice(x) => {
            let mut s = text("[");
            let d = type_debug_text(x);
            push_text(&mut s, d.as_str());
            push_text(&mut s, "]");
            s
        },
        Type::Ptr(x) => {
            let mut s = text("*");
            let d = type_debug_text(x);
            push_text(&mut s, d.as_str());
            s
        },
        Type::Unit => text("()"),
    }
}

impl Type {
    /// The text `Display` prints for this type.
    pub fn to_string(&self) -> (s: String)
        ensures
            s@ == type_text(self@),
    {
        type_text_of(self)
    }
}

// ----- errors -------------------------------------------------------------

/// Why a program does not type check.
#[derive(Debug, Clone, PartialEq, Eq)]
pub enum TypeError {
    UndefinedVariable(String),
    UndefinedFunction(String),
    TypeMismatch { expected: String, got: String },
    InvalidOperand { op: String, operand_type: String },
    ReturnTypeMismatch { expected: String, got: String },
    FieldNotFound { struct_name: String, field: String },
    NotAType(String),
}

/// The view of a [`TypeError`].
pub enum TypeErrorV {
    UndefinedVariable(Seq<char>),
    UndefinedFunction(Seq<char>),
    TypeMismatch { expected: Seq<char>, got: Seq<char> },
    InvalidOperand { op: Seq<char>, operand_type: Seq<char> },
    ReturnTypeMismatch { expected: Seq<char>, got: Seq<char> },
    FieldNotFound { struct_name: Seq<char>, field: Seq<char> },
    NotAType(Seq<char>),
}

impl View for TypeError {
    type V = TypeErrorV;

    open spec fn view(&self) -> TypeErrorV {
        match self {
            TypeError::UndefinedVariable(n) => TypeErrorV::UndefinedVariable(n@),
            TypeError::UndefinedFunction(n) => TypeErrorV::UndefinedFunction(n@),
            TypeError::TypeMismatch { expected, got } => TypeErrorV::TypeMismatch {
                expected: expected@,
                got: got@,
            },
            TypeError::InvalidOperand { op, operand_type } => TypeErrorV::InvalidOperand {
                op: op@,
                operand_type: operand_type@,
            },
            TypeError::ReturnTypeMismatch { expected, got } => TypeErrorV::ReturnTypeMismatch {
                expected: expected@,
                got: got@,
            },
            TypeError::FieldNotFound { struct_name, field } => TypeErrorV::FieldNotFound {
                struct_name: struct_name@,
                field: field@,
            },
            TypeError::NotAType(s) => TypeErrorV::NotAType(s@),
        }
    }
}

/// The text `Display` prints for an error.
pub open spec fn error_text(e: TypeErrorV) -> Seq<char> {
    match e {
        TypeErrorV::UndefinedVariable(n) => "Undefined variable: "@ + n,
        TypeErrorV::UndefinedFunction(n) => "Undefined function: "@ + n,
        TypeErrorV::TypeMismatch { expected, got } => "Type mismatch: expected "@ + expected
            + ", got "@ + got,
        TypeErrorV::InvalidOperand { op, operand_type } => "Invalid operand "@ + op + " for type "@
            + operand_type,
        TypeErrorV::ReturnTypeMismatch { expected, got } => "Return type mismatch: expected "@
            + expected + ", got "@ + got,
        TypeErrorV::FieldNotFound { struct_name, field } => "Field "@ + field
            + " not found in struct "@ + struct_name,
        TypeErrorV::NotAType(s) => s,
    }
}

impl TypeError {
    /// The text `Display` prints for this error.
    pub fn to_string(&self) -> (s: String)
        ensures
            s@ == error_text(self@),
    {
        match self {
            TypeError::UndefinedVariable(n) => {
                let mut s = text("Undefined variable: ");
                push_text(&mut s, n.as_str());
                s
            },
            TypeError::UndefinedFunction(n) => {
                let mut s = text("Undefined function: ");
                push_text(&mut s, n.as_str());
                s
            },
            TypeError::TypeMismatch { expected, got } => {
                let mut s = text("Type mismatch: expected ");
                push_text(&mut s, expected.as_str());
                push_text(&mut s, ", got ");
                push_text(&mut s, got.as_str());
                s
            },
            TypeError::InvalidOperand { op, operand_type } => {
                let mut s = text("Invalid operand ");
                push_text(&mut s, op.as_str());
                push_text(&mut s, " for type ");
                push_text(&mut s, operand_type.as_str());
                s
            },
            TypeError::ReturnTypeMismatch { expected, got } => {
                let mut s = text("Return type mismatch: expected ");
                push_text(&mut s, expected.as_str());
                push_text(&mut s, ", got ");
                push_text(&mut s, got.as_str());
                s
            },
            TypeError::FieldNotFound { struct_name, field } => {
                let mut s = text("Field ");
                push_text(&mut s, field.as_str());
                push_text(&mut s, " not found in struct ");
                push_text(&mut s, struct_name.as_str());
                s
            },
            TypeError::NotAType(m) => m.clone(),
        }
    }
}

// ----- checker state --------------------------------------------------------

/// A declared function: its return type and parameter types.
pub struct Signature {
    pub ret: Type,
    pub params: Vec<Type>,
}

impl View for Signature {
    type V = (TypeV, Seq<TypeV>);

    open spec fn view(&self) -> (TypeV, Seq<TypeV>) {
        (self.ret@, types_view(self.params@))
    }
}

/// The fields a struct was declared with, in order.
pub struct FieldList {
    pub fields: Vec<(String, Type)>,
}

impl View for FieldList {
    type V = Seq<(Seq<char>, TypeV)>;

    open spec fn view(&self) -> Seq<(Seq<char>, TypeV)> {
        named_types_view(self.fields@)
    }
}

/// The view of a [`TypeChecker`].
pub struct CheckerV {
    /// Variable types, one map per scope, innermost last.
    pub scopes: Seq<Map<Seq<char>, TypeV>>,
    pub functions: Map<Seq<char>, (TypeV, Seq<TypeV>)>,
    pub structs: Map<Seq<char>, Seq<(Seq<char>, TypeV)>>,
}

/// A type checker: the scopes of variables, and the functions and structs
/// declared so far.
pub struct TypeChecker {
    pub types: Vec<NameMap<Type>>,
    pub functions: NameMap<Signature>,
    pub structs: NameMap<FieldList>,
}

impl View for TypeChecker {
    type V = CheckerV;

    open spec fn view(&self) -> CheckerV {
        CheckerV {
            scopes: self.types@.map_values(|m: NameMap<Type>| m@),
            functions: self.functions@,
            structs: self.structs@,
        }
    }
}

impl TypeChecker {
    /// A checker can run when it has a scope to declare variables in.
    pub open spec fn wf(&self) -> bool {
        self.types.len() > 0
    }

    /// A checker with one empty scope and nothing declared.
    pub fn new() -> (c: Self)
        ensures
            c.wf(),
            c@.scopes == seq![Map::<Seq<char>, TypeV>::empty()],
            c@.functions == Map::<Seq<char>, (TypeV, Seq<TypeV>)>::empty(),
            c@.structs == Map::<Seq<char>, Seq<(Seq<char>, TypeV)>>::empty(),
    {
        let c = Self { types: vec![NameMap::new()], functions: NameMap::new(), structs: NameMap::new() };
        assert(c@.scopes =~= seq![Map::<Seq<char>, TypeV>::empty()]);
        c
    }
}

// ----- the rules ----------------------------------------------------------

pub open spec fn int_t() -> TypeV {
    TypeV::Prim(PrimType::Int)
}

pub open spec fn float_t() -> TypeV {
    TypeV::Prim(PrimType::Float)
}

pub open spec fn bool_t() -> TypeV {
    TypeV::Prim(PrimType::Bool)
}

/// The outcome of checking: the checker's state afterwards, and a result.
pub struct Checked<T> {
    pub st: CheckerV,
    pub res: Result<T, TypeErrorV>,
}

pub open spec fn done<T>(st: CheckerV, v: T) -> Checked<T> {
    Checked { st, res: Ok(v) }
}

pub open spec fn failed<T>(st: CheckerV, e: TypeErrorV) -> Checked<T> {
    Checked { st, res: Err(e) }
}

pub open spec fn mismatch(expected: Seq<char>, got: Seq<char>) -> TypeErrorV {
    TypeErrorV::TypeMismatch { expected, got }
}

/// The texts of two types joined by ` and `.
pub open spec fn pair_text(l: TypeV, r: TypeV) -> Seq<char> {
    type_text(l) + " and "@ + type_text(r)
}

/// The type of `name` in the innermost scope that declares it.
pub open spec fn lookup_var(scopes: Seq<Map<Seq<char>, TypeV>>, name: Seq<char>) -> Option<TypeV>
    decreases scopes.len(),
{
    if scopes.len() == 0 {
        None
    } else if scopes.last().contains_key(name) {
        Some(scopes.last()[name])
    } else {
        lookup_var(scopes.drop_last(), name)
    }
}

/// The scopes after the innermost scope that declares `name` gives it the
/// type `t`; `None` when no scope declares it.
pub open spec fn assign_var(scopes: Seq<Map<Seq<char>, TypeV>>, name: Seq<char>, t: TypeV) -> Option<
    Seq<Map<Seq<char>, TypeV>>,
>
    decreases scopes.len(),
{
    if scopes.len() == 0 {
        None
    } else if scopes.last().contains_key(name) {
        Some(scopes.drop_last().push(scopes.last().insert(name, t)))
    } else {
        match assign_var(scopes.drop_last(), name, t) {
            Some(inner) => Some(inner.push(scopes.last())),
            None => None,
        }
    }
}

/// The state with `name` declared as `t` in the innermost scope.
pub open spec fn declare(st: CheckerV, name: Seq<char>, t: TypeV) -> CheckerV {
    CheckerV {
        scopes: st.scopes.drop_last().push(st.scopes.last().insert(name, t)),
        functions: st.functions,
        structs: st.structs,
    }
}

/// The state with one more, given, innermost scope.
pub open spec fn push_scope(st: CheckerV, scope: Map<Seq<char>, TypeV>) -> CheckerV {
    CheckerV { scopes: st.scopes.push(scope), functions: st.functions, structs: st.structs }
}

/// The state without its innermost scope (unchanged when there is none).
pub open spec fn pop_scope(st: CheckerV) -> CheckerV {
    if st.scopes.len() > 0 {
        CheckerV { scopes: st.scopes.drop_last(), functions: st.functions, structs: st.structs }
    } else {
        st
    }
}

/// The type of the first field named `name`.
pub open spec fn find_field(fs: Seq<(Seq<char>, TypeV)>, name: Seq<char>) -> Option<TypeV>
    decreases fs.len(),
{
    if fs.len() == 0 {
        None
    } else if fs[0].0 == name {
        Some(fs[0].1)
    } else {
        find_field(fs.drop_first(), name)
    }
}

/// The scope a function's parameters are declared in, later ones winning.
pub open spec fn params_scope(ps: Seq<(Seq<char>, TypeV)>) -> Map<Seq<char>, TypeV>
    decreases ps.len(),
{
    if ps.len() == 0 {
        Map::empty()
    } else {
        params_scope(ps.drop_last()).insert(ps.last().0, ps.last().1)
    }
}

/// The types of a function's parameters.
pub open spec fn param_types(ps: Seq<(Seq<char>, TypeV)>) -> Seq<TypeV> {
    ps.map_values(|p: (Seq<char>, TypeV)| p.1)
}

/// The type of `l op r`, the operands of types `lt` and `rt`, in the state
/// after both were checked.
pub open spec fn binop_result(st: CheckerV, l: ExprV, op: BinOp, lt: TypeV, rt: TypeV) -> Result<
    TypeV,
    TypeErrorV,
> {
    match op {
        BinOp::Add | BinOp::Sub | BinOp::Mul | BinOp::Div | BinOp::Mod => if lt == int_t() && rt
            == int_t() {
            Ok(int_t())
        } else if lt == float_t() && rt == float_t() {
            Ok(float_t())
        } else {
            Err(mismatch("Int or Float"@, pair_text(lt, rt)))
        },
        BinOp::Lt | BinOp::Le | BinOp::Gt | BinOp::Ge => if lt == rt {
            Ok(bool_t())
        } else {
            Err(mismatch(type_text(lt), type_text(rt)))
        },
        BinOp::Eq | BinOp::Ne => Ok(bool_t()),
        BinOp::And | BinOp::Or | BinOp::Xor => if lt == bool_t() && rt == bool_t() {
            Ok(bool_t())
        } else {
            Err(mismatch("Bool"@, pair_text(lt, rt)))
        },
        BinOp::BitAnd | BinOp::BitOr => if lt == int_t() && rt == int_t() {
            Ok(int_t())
        } else {
            Err(TypeErrorV::InvalidOperand { op: binop_name(op), operand_type: pair_text(lt, rt) })
        },
        BinOp::Assign => match l {
            ExprV::Ident(name) => if lookup_var(st.scopes, name) is Some {
                Ok(rt)
            } else {
                Err(TypeErrorV::UndefinedVariable(name))
            },
            _ => Err(TypeErrorV::NotAType("Invalid assignment target"@)),
        },
    }
}

/// The type of `op x`, `x` of type `t`.
pub open spec fn unop_result(op: UnaryOp, t: TypeV) -> Result<TypeV, TypeErrorV> {
    match op {
        UnaryOp::Neg => if t == int_t() || t == float_t() {
            Ok(t)
        } else {
            Err(TypeErrorV::InvalidOperand { op: "-"@, operand_type: type_text(t) })
        },
        UnaryOp::Not => if t == bool_t() {
            Ok(bool_t())
        } else {
            Err(TypeErrorV::InvalidOperand { op: "!"@, operand_type: type_text(t) })
        },
        _ => Err(TypeErrorV::NotAType("Unknown unary op: "@ + unop_name(op))),
    }
}

/// The type of field `field` of a value of type `t`.
pub open spec fn field_result(st: CheckerV, t: TypeV, field: Seq<char>) -> Result<TypeV, TypeErrorV> {
    match t {
        TypeV::Struct(sname) => if st.structs.contains_key(sname) {
            match find_field(st.structs[sname], field) {
                Some(ft) => Ok(ft),
                None => Err(TypeErrorV::FieldNotFound { struct_name: sname, field }),
            }
        } else {
            Err(TypeErrorV::UndefinedVariable(sname))
        },
        _ => Err(TypeErrorV::NotAType("Cannot access field on "@ + type_text(t))),
    }
}

/// Checking an expression.
pub open spec fn t_expr(st: CheckerV, e: ExprV) -> Checked<TypeV>
    decreases e, 0int,
{
    match e {
        ExprV::IntLiteral(_) => done(st, int_t()),
        ExprV::FloatLiteral(_) => done(st, float_t()),
        ExprV::StringLiteral(_) => done(st, TypeV::Prim(PrimType::String)),
        ExprV::Ident(name) => match lookup_var(st.scopes, name) {
            Some(t) => done(st, t),
            None => failed(st, TypeErrorV::UndefinedVariable(name)),
        },
        ExprV::BinaryOp(l, op, r) => {
            let a = t_expr(st, *l);
            match a.res {
                Err(x) => failed(a.st, x),
                Ok(lt) => {
                    let b = t_expr(a.st, *r);
                    match b.res {
                        Err(x) => failed(b.st, x),
                        Ok(rt) => Checked { st: b.st, res: binop_result(b.st, *l, op, lt, rt) },
                    }
                },
            }
        },
        ExprV::UnaryOp(op, x) => {
            let a = t_expr(st, *x);
            match a.res {
                Err(y) => failed(a.st, y),
                Ok(t) => Checked { st: a.st, res: unop_result(op, t) },
            }
        },
        ExprV::Call(name, args) => if st.functions.contains_key(name) {
            let sig = st.functions[name];
            if args.len() != sig.1.len() {
                failed(
                    st,
                    mismatch(dec_text(sig.1.len()) + " args"@, dec_text(args.len()) + " args"@),
                )
            } else {
                let a = t_args(st, args, sig.1, 0);
                match a.res {
                    Err(x) => failed(a.st, x),
                    Ok(_) => done(a.st, sig.0),
                }
            }
        } else {
            failed(st, TypeErrorV::UndefinedFunction(name))
        },
        ExprV::StructInit(name, inits) => if st.structs.contains_key(name) {
            let a = t_inits(st, name, st.structs[name], inits, 0);
            match a.res {
                Err(x) => failed(a.st, x),
                Ok(_) => done(a.st, TypeV::Struct(name)),
            }
        } else {
            failed(st, TypeErrorV::UndefinedVariable("Unknown struct: "@ + name))
        },
        ExprV::FieldAccess(obj, field) => {
            let a = t_expr(st, *obj);
            match a.res {
                Err(x) => failed(a.st, x),
                Ok(t) => Checked { st: a.st, res: field_result(a.st, t, field) },
            }
        },
        ExprV::Block(stmts) => {
            let a = t_stmts(push_scope(st, Map::empty()), stmts, 0, int_t());
            match a.res {
                Err(x) => failed(a.st, x),
                Ok(t) => done(pop_scope(a.st), t),
            }
        },
        ExprV::If(c, then_s, else_s) => {
            let a = t_expr(st, *c);
            match a.res {
                Err(x) => failed(a.st, x),
                Ok(ct) => if ct != bool_t() {
                    failed(a.st, mismatch("Bool"@, type_text(ct)))
                } else {
                    let b = t_stmt(a.st, *then_s);
                    match b.res {
                        Err(x) => failed(b.st, x),
                        Ok(tt) => match else_s {
                            Some(es) => {
                                let d = t_stmt(b.st, *es);
                                match d.res {
                                    Err(x) => failed(d.st, x),
                                    Ok(et) => if tt != et {
                                        failed(d.st, mismatch(type_text(tt), type_text(et)))
                                    } else {
                                        done(d.st, tt)
                                    },
                                }
                            },
                            None => done(b.st, tt),
                        },
                    }
                },
            }
        },
        ExprV::While(c, body) => {
            let a = t_expr(st, *c);
            match a.res {
                Err(x) => failed(a.st, x),
                Ok(ct) => if ct != bool_t() {
                    failed(a.st, mismatch("Bool"@, type_text(ct)))
                } else {
                    let b = t_stmt(a.st, *body);
                    match b.res {
                        Err(x) => failed(b.st, x),
                        Ok(_) => done(b.st, int_t()),
                    }
                },
            }
        },
        ExprV::Return(v) => match v {
            Some(x) => t_expr(st, *x),
            None => done(st, int_t()),
        },
        ExprV::Break => done(st, int_t()),
        ExprV::Continue => done(st, int_t()),
    }
}

/// Checking the arguments of a call from the `i`-th on against the
/// parameter types `ps`.
pub open spec fn t_args(st: CheckerV, args: Seq<ExprV>, ps: Seq<TypeV>, i: int) -> Checked<()>
    decreases args, args.len() - i,
{
    if 0 <= i < args.len() {
        let a = t_expr(st, args[i]);
        match a.res {
            Err(x) => failed(a.st, x),
            Ok(at) => if at != ps[i] {
                failed(a.st, mismatch(type_text(ps[i]), type_text(at)))
            } else {
                t_args(a.st, args, ps, i + 1)
            },
        }
    } else {
        done(st, ())
    }
}

/// Checking the field initialisers of a literal of struct `sname` from the
/// `i`-th on, against the declared fields `defs`.
pub open spec fn t_inits(
    st: CheckerV,
    sname: Seq<char>,
    defs: Seq<(Seq<char>, TypeV)>,
    inits: Seq<(Seq<char>, ExprV)>,
    i: int,
) -> Checked<()>
    decreases inits, inits.len() - i,
{
    if 0 <= i < inits.len() {
        let a = t_expr(st, inits[i].1);
        match a.res {
            Err(x) => failed(a.st, x),
            Ok(ft) => match find_field(defs, inits[i].0) {
                Some(expected) => if ft != expected {
                    failed(a.st, mismatch(type_text(expected), type_text(ft)))
                } else {
                    t_inits(a.st, sname, defs, inits, i + 1)
                },
                None => failed(a.st, TypeErrorV::FieldNotFound { struct_name: sname, field: inits[i].0 }),
            },
        }
    } else {
        done(st, ())
    }
}

/// Checking the statements of a block from the `i`-th on; the block's type
/// is that of its last statement (`last` so far).
pub open spec fn t_stmts(st: CheckerV, stmts: Seq<StmtV>, i: int, last: TypeV) -> Checked<TypeV>
    decreases stmts, stmts.len() - i,
{
    if 0 <= i < stmts.len() {
        let a = t_stmt(st, stmts[i]);
        match a.res {
            Err(x) => failed(a.st, x),
            Ok(t) => t_stmts(a.st, stmts, i + 1, t),
        }
    } else {
        done(st, last)
    }
}

/// Checking a declaration's initialiser against its declared type, then
/// declaring the name.
pub open spec fn t_declare(a: Checked<TypeV>, name: Seq<char>, ty: Option<TypeV>) -> Checked<TypeV> {
    match a.res {
        Err(x) => failed(a.st, x),
        Ok(t) => match ty {
            Some(expected) => if t != expected {
                failed(a.st, mismatch(type_text(expected), type_text(t)))
            } else {
                done(declare(a.st, name, t), int_t())
            },
            None => done(declare(a.st, name, t), int_t()),
        },
    }
}

/// Checking a statement.
pub open spec fn t_stmt(st: CheckerV, s: StmtV) -> Checked<TypeV>
    decreases s, 0int,
{
    match s {
        StmtV::Let(name, ty, x) => t_declare(t_expr(st, x), name, ty),
        StmtV::Mut(name, x) => {
            let a = t_expr(st, x);
            match a.res {
                Err(y) => failed(a.st, y),
                Ok(t) => match assign_var(a.st.scopes, name, t) {
                    Some(scopes) => done(
                        CheckerV { scopes, functions: a.st.functions, structs: a.st.structs },
                        t,
                    ),
                    None => failed(a.st, TypeErrorV::UndefinedVariable(name)),
                },
            }
        },
        StmtV::Const(name, ty, x) => t_declare(t_expr(st, x), name, ty),
        StmtV::Expr(x) => t_expr(st, x),
        StmtV::Return(v) => match v {
            Some(x) => t_expr(st, *x),
            None => done(st, int_t()),
        },
        StmtV::Item(it) => {
            let a = t_item(st, it);
            match a.res {
                Err(x) => failed(a.st, x),
                Ok(_) => done(a.st, int_t()),
            }
        },
        StmtV::For(var, start, end, body) => {
            let a = t_expr(st, *start);
            match a.res {
                Err(x) => failed(a.st, x),
                Ok(st_t) => {
                    let b = t_expr(a.st, *end);
                    match b.res {
                        Err(x) => failed(b.st, x),
                        Ok(en_t) => if st_t != int_t() || en_t != int_t() {
                            failed(b.st, mismatch("Int"@, pair_text(st_t, en_t)))
                        } else {
                            let c = t_expr(declare(b.st, var, int_t()), body);
                            match c.res {
                                Err(x) => failed(c.st, x),
                                Ok(_) => done(c.st, int_t()),
                            }
                        },
                    }
                },
            }
        },
        StmtV::If(c, then_e, else_e) => {
            let a = t_expr(st, *c);
            match a.res {
                Err(x) => failed(a.st, x),
                Ok(ct) => if ct != bool_t() {
                    failed(a.st, mismatch("Bool"@, type_text(ct)))
                } else {
                    let b = t_expr(a.st, then_e);
                    match b.res {
                        Err(x) => failed(b.st, x),
                        Ok(tt) => match else_e {
                            Some(ee) => {
                                let d = t_expr(b.st, ee);
                                match d.res {
                                    Err(x) => failed(d.st, x),
                                    Ok(et) => if tt != et {
                                        failed(d.st, mismatch(type_text(tt), type_text(et)))
                                    } else {
                                        done(d.st, tt)
                                    },
                                }
                            },
                            None => done(b.st, tt),
                        },
                    }
                },
            }
        },
        StmtV::While(c, body) => {
            let a = t_expr(st, *c);
            match a.res {
                Err(x) => failed(a.st, x),
                Ok(ct) => if ct != bool_t() {
                    failed(a.st, mismatch("Bool"@, type_text(ct)))
                } else {
                    let b = t_expr(a.st, body);
                    match b.res {
                        Err(x) => failed(b.st, x),
                        Ok(_) => done(b.st, int_t()),
                    }
                },
            }
        },
    }
}

/// Checking an item.
pub open spec fn t_item(st: CheckerV, it: ItemV) -> Checked<()>
    decreases it, 0int,
{
    match it {
        ItemV::Fn { name, params, ret, body } => {
            let entered = CheckerV {
                scopes: st.scopes.push(params_scope(params)),
                functions: st.functions.insert(name, (ret, param_types(params))),
                structs: st.structs,
            };
            let a = t_expr(entered, body);
            match a.res {
                Err(x) => failed(a.st, x),
                Ok(bt) => {
                    let left = pop_scope(a.st);
                    if bt != ret && ret != int_t() {
                        failed(
                            left,
                            TypeErrorV::ReturnTypeMismatch { expected: type_text(ret), got: type_text(bt) },
                        )
                    } else {
                        done(left, ())
                    }
                },
            }
        },
        ItemV::Struct { name, fields } => done(
            CheckerV { scopes: st.scopes, functions: st.functions, structs: st.structs.insert(name, fields) },
            (),
        ),
        ItemV::Import { .. } => done(st, ()),
    }
}

/// Checking items from the `i`-th on, stopping at the first error.
pub open spec fn t_items(st: CheckerV, items: Seq<ItemV>, i: int) -> Checked<()>
    decreases items.len() - i,
{
    if 0 <= i < items.len() {
        let a = t_item(st, items[i]);
        match a.res {
            Err(x) => failed(a.st, x),
            Ok(_) => t_items(a.st, items, i + 1),
        }
    } else {
        done(st, ())
    }
}

// ----- lemmas on the rules --------------------------------------------------

/// With scope `i` the innermost to declare `name`, a lookup finds it there
/// and an assignment changes it there.
pub proof fn lemma_innermost(scopes: Seq<Map<Seq<char>, TypeV>>, name: Seq<char>, t: TypeV, i: int)
    requires
        0 <= i < scopes.len(),
        scopes[i].contains_key(name),
        forall|j: int| i < j < scopes.len() ==> !#[trigger] scopes[j].contains_key(name),
    ensures
        lookup_var(scopes, name) == Some(scopes[i][name]),
        assign_var(scopes, name, t) == Some(scopes.update(i, scopes[i].insert(name, t))),
    decreases scopes.len(),
{
    if i == scopes.len() - 1 {
        assert(scopes.drop_last().push(scopes.last().insert(name, t)) =~= scopes.update(
            i,
            scopes[i].insert(name, t),
        ));
    } else {
        let d = scopes.drop_last();
        assert(!scopes[scopes.len() - 1].contains_key(name));
        assert forall|j: int| i < j < d.len() implies !#[trigger] d[j].contains_key(name) by {
            assert(d[j] == scopes[j]);
        }
        lemma_innermost(d, name, t, i);
        assert(d.update(i, d[i].insert(name, t)).push(scopes.last()) =~= scopes.update(
            i,
            scopes[i].insert(name, t),
        ));
    }
}

/// With no scope declaring `name`, a lookup and an assignment find nothing.
pub proof fn lemma_undeclared(scopes: Seq<Map<Seq<char>, TypeV>>, name: Seq<char>, t: TypeV)
    requires
        forall|j: int| 0 <= j < scopes.len() ==> !#[trigger] scopes[j].contains_key(name),
    ensures
        lookup_var(scopes, name) is None,
        assign_var(scopes, name, t) is None,
    decreases scopes.len(),
{
    if scopes.len() > 0 {
        let d = scopes.drop_last();
        assert(!scopes[scopes.len() - 1].contains_key(name));
        assert forall|j: int| 0 <= j < d.len() implies !#[trigger] d[j].contains_key(name) by {
            assert(d[j] == scopes[j]);
        }
        lemma_undeclared(d, name, t);
    }
}

/// The first field named `name` is the one at `j`.
proof fn lemma_find_field(fs: Seq<(Seq<char>, TypeV)>, name: Seq<char>, j: int)
    requires
        0 <= j <= fs.len(),
        forall|k: int| 0 <= k < j ==> #[trigger] fs[k].0 != name,
        j < fs.len() ==> fs[j].0 == name,
    ensures
        find_field(fs, name) == (if j < fs.len() {
            Some(fs[j].1)
        } else {
            None
        }),
    decreases j,
{
    if j > 0 {
        let d = fs.drop_first();
        assert(fs[0].0 != name);
        assert forall|k: int| 0 <= k < j - 1 implies #[trigger] d[k].0 != name by {
            assert(d[k] == fs[k + 1]);
        }
        lemma_find_field(d, name, j - 1);
    }
}

/// Declaring the parameters one by one builds [`params_scope`].
proof fn lemma_params_scope_step(ps: Seq<(Seq<char>, TypeV)>, i: int)
    requires
        0 <= i < ps.len(),
    ensures
        params_scope(ps.take(i + 1)) == params_scope(ps.take(i)).insert(ps[i].0, ps[i].1),
{
    assert(ps.take(i + 1).drop_last() =~= ps.take(i));
}

// ----- what checking keeps -------------------------------------------------

/// Checking never drops a scope it did not open, nor a declared function or
/// struct.
pub open spec fn keeps(before: CheckerV, after: CheckerV) -> bool {
    &&& after.scopes.len() >= before.scopes.len()
    &&& before.functions.dom().subset_of(after.functions.dom())
    &&& before.structs.dom().subset_of(after.structs.dom())
}

/// Keeps what `keeps` asks, and when it succeeds, closes every scope it
/// opened.
pub open spec fn balanced<T>(before: CheckerV, c: Checked<T>) -> bool {
    &&& keeps(before, c.st)
    &&& c.res is Ok ==> c.st.scopes.len() == before.scopes.len()
}

proof fn lemma_assign_var_len(scopes: Seq<Map<Seq<char>, TypeV>>, name: Seq<char>, t: TypeV)
    ensures
        assign_var(scopes, name, t) matches Some(s) ==> s.len() == scopes.len(),
    decreases scopes.len(),
{
    if scopes.len() > 0 {
        lemma_assign_var_len(scopes.drop_last(), name, t);
    }
}

/// Checking an expression keeps the declarations and the scopes below it,
/// and a successful check closes every scope it opened.
pub proof fn lemma_expr_balanced(st: CheckerV, e: ExprV)
    requires
        st.scopes.len() > 0,
    ensures
        balanced(st, t_expr(st, e)),
    decreases e, 0int,
{
    match e {
        ExprV::BinaryOp(l, op, r) => {
            lemma_expr_balanced(st, *l);
            let a = t_expr(st, *l);
            if a.res is Ok {
                lemma_expr_balanced(a.st, *r);
            }
        },
        ExprV::UnaryOp(op, x) => {
            lemma_expr_balanced(st, *x);
        },
        ExprV::Call(name, args) => {
            if st.functions.contains_key(name) && args.len() == st.functions[name].1.len() {
                lemma_args_balanced(st, args, st.functions[name].1, 0);
            }
        },
        ExprV::StructInit(name, inits) => {
            if st.structs.contains_key(name) {
                lemma_inits_balanced(st, name, st.structs[name], inits, 0);
            }
        },
        ExprV::FieldAccess(obj, field) => {
            lemma_expr_balanced(st, *obj);
        },
        ExprV::Block(stmts) => {
            lemma_stmts_balanced(push_scope(st, Map::empty()), stmts, 0, int_t());
        },
        ExprV::If(c, then_s, else_s) => {
            lemma_expr_balanced(st, *c);
            let a = t_expr(st, *c);
            if a.res is Ok {
                lemma_stmt_balanced(a.st, *then_s);
                let b = t_stmt(a.st, *then_s);
                if b.res is Ok {
                    match else_s {
                        Some(es) => {
                            lemma_stmt_balanced(b.st, *es);
                        },
                        None => {},
                    }
                }
            }
        },
        ExprV::While(c, body) => {
            lemma_expr_balanced(st, *c);
            let a = t_expr(st, *c);
            if a.res is Ok {
                lemma_stmt_balanced(a.st, *body);
            }
        },
        ExprV::Return(v) => match v {
            Some(x) => {
                lemma_expr_balanced(st, *x);
            },
            None => {},
        },
        _ => {},
    }
}

/// [`lemma_expr_balanced`] for the arguments of a call.
pub proof fn lemma_args_balanced(st: CheckerV, args: Seq<ExprV>, ps: Seq<TypeV>, i: int)
    requires
        st.scopes.len() > 0,
    ensures
        balanced(st, t_args(st, args, ps, i)),
    decreases args, args.len() - i,
{
    if 0 <= i < args.len() {
        lemma_expr_balanced(st, args[i]);
        let a = t_expr(st, args[i]);
        if a.res is Ok && a.res->Ok_0 == ps[i] {
            lemma_args_balanced(a.st, args, ps, i + 1);
        }
    }
}

/// [`lemma_expr_balanced`] for the fields of a struct literal.
pub proof fn lemma_inits_balanced(
    st: CheckerV,
    sname: Seq<char>,
    defs: Seq<(Seq<char>, TypeV)>,
    inits: Seq<(Seq<char>, ExprV)>,
    i: int,
)
    requires
        st.scopes.len() > 0,
    ensures
        balanced(st, t_inits(st, sname, defs, inits, i)),
    decreases inits, inits.len() - i,
{
    if 0 <= i < inits.len() {
        lemma_expr_balanced(st, inits[i].1);
        let a = t_expr(st, inits[i].1);
        if a.res is Ok {
            lemma_inits_balanced(a.st, sname, defs, inits, i + 1);
        }
    }
}

/// [`lemma_expr_balanced`] for the statements of a block.
pub proof fn lemma_stmts_balanced(st: CheckerV, stmts: Seq<StmtV>, i: int, last: TypeV)
    requires
        st.scopes.len() > 0,
    ensures
        balanced(st, t_stmts(st, stmts, i, last)),
    decreases stmts, stmts.len() - i,
{
    if 0 <= i < stmts.len() {
        lemma_stmt_balanced(st, stmts[i]);
        let a = t_stmt(st, stmts[i]);
        if a.res is Ok {
            lemma_stmts_balanced(a.st, stmts, i + 1, a.res->Ok_0);
        }
    }
}

/// [`lemma_expr_balanced`] for a statement.
pub proof fn lemma_stmt_balanced(st: CheckerV, s: StmtV)
    requires
        st.scopes.len() > 0,
    ensures
        balanced(st, t_stmt(st, s)),
    decreases s, 0int,
{
    match s {
        StmtV::Let(name, ty, x) => {
            lemma_expr_balanced(st, x);
        },
        StmtV::Mut(name, x) => {
            lemma_expr_balanced(st, x);
            let a = t_expr(st, x);
            if a.res is Ok {
                lemma_assign_var_len(a.st.scopes, name, a.res->Ok_0);
            }
        },
        StmtV::Const(name, ty, x) => {
            lemma_expr_balanced(st, x);
        },
        StmtV::Expr(x) => {
            lemma_expr_balanced(st, x);
        },
        StmtV::Return(v) => match v {
            Some(x) => {
                lemma_expr_balanced(st, *x);
            },
            None => {},
        },
        StmtV::Item(it) => {
            lemma_item_balanced(st, it);
        },
        StmtV::For(var, start, end, body) => {
            lemma_expr_balanced(st, *start);
            let a = t_expr(st, *start);
            if a.res is Ok {
                lemma_expr_balanced(a.st, *end);
                let b = t_expr(a.st, *end);
                if b.res is Ok {
                    lemma_expr_balanced(declare(b.st, var, int_t()), body);
                }
            }
        },
        StmtV::If(c, then_e, else_e) => {
            lemma_expr_balanced(st, *c);
            let a = t_expr(st, *c);
            if a.res is Ok {
                lemma_expr_balanced(a.st, then_e);
                let b = t_expr(a.st, then_e);
                if b.res is Ok {
                    match else_e {
                        Some(ee) => {
                            lemma_expr_balanced(b.st, ee);
                        },
                        None => {},
                    }
                }
            }
        },
        StmtV::While(c, body) => {
            lemma_expr_balanced(st, *c);
            let a = t_expr(st, *c);
            if a.res is Ok {
                lemma_expr_balanced(a.st, body);
            }
        },
    }
}

/// [`lemma_expr_balanced`] for an item.
pub proof fn lemma_item_balanced(st: CheckerV, it: ItemV)
    ensures
        balanced(st, t_item(st, it)),
    decreases it, 0int,
{
    match it {
        ItemV::Fn { name, params, ret, body } => {
            let entered = CheckerV {
                scopes: st.scopes.push(params_scope(params)),
                functions: st.functions.insert(name, (ret, param_types(params))),
                structs: st.structs,
            };
            lemma_expr_balanced(entered, body);
        },
        _ => {},
    }
}

/// Checking a list of items keeps the declarations and, when it succeeds,
/// leaves as many scopes as it found.
pub proof fn lemma_items_balanced(st: CheckerV, items: Seq<ItemV>, i: int)
    ensures
        balanced(st, t_items(st, items, i)),
    decreases items.len() - i,
{
    if 0 <= i < items.len() {
        lemma_item_balanced(st, items[i]);
        let a = t_item(st, items[i]);
        if a.res is Ok {
            lemma_items_balanced(a.st, items, i + 1);
        }
    }
}

/// The name a top-level item declares as a function, if it is one.
pub open spec fn fn_name(it: ItemV) -> Option<Seq<char>> {
    match it {
        ItemV::Fn { name, .. } => Some(name),
        _ => None,
    }
}

/// The name a top-level item declares as a struct, if it is one.
pub open spec fn struct_name(it: ItemV) -> Option<Seq<char>> {
    match it {
        ItemV::Struct { name, .. } => Some(name),
        _ => None,
    }
}

/// After a successful check of the items from the `i`-th on, every function
/// and every struct among them is declared, and so is what was declared
/// before.
pub proof fn lemma_items_declare(st: CheckerV, items: Seq<ItemV>, i: int)
    requires
        0 <= i,
        t_items(st, items, i).res is Ok,
    ensures
        keeps(st, t_items(st, items, i).st),
        forall|j: int| #![trigger items[j]] i <= j < items.len() && fn_name(items[j]) is Some
            ==> t_items(st, items, i).st.functions.contains_key(fn_name(items[j])->Some_0),
        forall|j: int| #![trigger items[j]] i <= j < items.len() && struct_name(items[j]) is Some
            ==> t_items(st, items, i).st.structs.contains_key(struct_name(items[j])->Some_0),
    decreases items.len() - i,
{
    lemma_items_balanced(st, items, i);
    if i < items.len() {
        let a = t_item(st, items[i]);
        lemma_item_balanced(st, items[i]);
        lemma_items_declare(a.st, items, i + 1);
        let fin = t_items(st, items, i).st;
        assert(fin == t_items(a.st, items, i + 1).st);
        match items[i] {
            ItemV::Fn { name, .. } => {
                let entered_fns = st.functions.insert(name, (items[i]->Fn_ret, param_types(items[i]->Fn_params)));
                assert(entered_fns.contains_key(name));
                assert(a.st.functions.contains_key(name)) by {
                    lemma_fn_item_declares(st, items[i]);
                }
                assert(fin.functions.dom().contains(name));
            },
            ItemV::Struct { name, .. } => {
                assert(a.st.structs.contains_key(name));
                assert(fin.structs.dom().contains(name));
            },
            _ => {},
        }
    }
}

/// A function item declares its name, whatever its body gives.
proof fn lemma_fn_item_declares(st: CheckerV, it: ItemV)
    requires
        it is Fn,
    ensures
        t_item(st, it).st.functions.contains_key(it->Fn_name),
{
    let entered = CheckerV {
        scopes: st.scopes.push(params_scope(it->Fn_params)),
        functions: st.functions.insert(it->Fn_name, (it->Fn_ret, param_types(it->Fn_params))),
        structs: st.structs,
    };
    lemma_expr_balanced(entered, it->Fn_body);
    assert(entered.functions.dom().contains(it->Fn_name));
}

/// Checking `b` from its `j`-th item is checking `a + b` from its
/// `a.len() + j`-th.
proof fn lemma_items_shift(st: CheckerV, a: Seq<ItemV>, b: Seq<ItemV>, j: int)
    requires
        0 <= j <= b.len(),
    ensures
        t_items(st, a + b, a.len() + j) == t_items(st, b, j),
    decreases b.len() - j,
{
    if j < b.len() {
        assert((a + b)[a.len() + j] == b[j]);
        let c = t_item(st, b[j]);
        if c.res is Ok {
            lemma_items_shift(c.st, a, b, j + 1);
        }
    }
}

proof fn lemma_items_concat_from(st: CheckerV, a: Seq<ItemV>, b: Seq<ItemV>, i: int)
    requires
        0 <= i <= a.len(),
    ensures
        t_items(st, a + b, i) == (if t_items(st, a, i).res is Ok {
            t_items(t_items(st, a, i).st, b, 0)
        } else {
            t_items(st, a, i)
        }),
    decreases a.len() - i,
{
    if i < a.len() {
        assert((a + b)[i] == a[i]);
        let c = t_item(st, a[i]);
        if c.res is Ok {
            lemma_items_concat_from(c.st, a, b, i + 1);
        }
    } else {
        lemma_items_shift(st, a, b, 0);
    }
}

/// Checking a list of items is a left-to-right fold that stops at the first
/// error: checking `a + b` checks `a`, and where that succeeds checks `b`
/// from the state `a` left.
pub proof fn lemma_items_concat(st: CheckerV, a: Seq<ItemV>, b: Seq<ItemV>)
    ensures
        t_items(st, a + b, 0) == (if t_items(st, a, 0).res is Ok {
            t_items(t_items(st, a, 0).st, b, 0)
        } else {
            t_items(st, a, 0)
        }),
{
    lemma_items_concat_from(st, a, b, 0);
}

/// Whether `op` is one of `+ - * / %`.
pub open spec fn is_arith(op: BinOp) -> bool {
    op == BinOp::Add || op == BinOp::Sub || op == BinOp::Mul || op == BinOp::Div || op == BinOp::Mod
}

/// The type of an operator applied to two operands whose checks leave the
/// checker as it was: the operator's rule on the two types. For `+ - * / %`
/// that is the operands' type when both are `Int` or both `Float`, and
/// otherwise a mismatch that names both types.
pub proof fn lemma_binop_typing(st: CheckerV, l: ExprV, op: BinOp, r: ExprV, lt: TypeV, rt: TypeV)
    requires
        t_expr(st, l) == done(st, lt),
        t_expr(st, r) == done(st, rt),
    ensures
        t_expr(st, ExprV::BinaryOp(Box::new(l), op, Box::new(r))) == (Checked {
            st,
            res: binop_result(st, l, op, lt, rt),
        }),
        is_arith(op) ==> binop_result(st, l, op, lt, rt) == (if lt == rt && (lt == int_t() || lt
            == float_t()) {
            Ok::<TypeV, TypeErrorV>(lt)
        } else {
            Err::<TypeV, TypeErrorV>(mismatch("Int or Float"@, pair_text(lt, rt)))
        }),
        (op == BinOp::Lt || op == BinOp::Le || op == BinOp::Gt || op == BinOp::Ge) ==> binop_result(
            st,
            l,
            op,
            lt,
            rt,
        ) == (if lt == rt {
            Ok::<TypeV, TypeErrorV>(TypeV::Prim(PrimType::Bool))
        } else {
            Err::<TypeV, TypeErrorV>(mismatch(type_text(lt), type_text(rt)))
        }),
        (op == BinOp::Eq || op == BinOp::Ne) ==> binop_result(st, l, op, lt, rt) == Ok::<TypeV, TypeErrorV>(
            TypeV::Prim(PrimType::Bool),
        ),
        (op == BinOp::And || op == BinOp::Or || op == BinOp::Xor) ==> (binop_result(st, l, op, lt, rt)
            is Ok <==> lt == TypeV::Prim(PrimType::Bool) && rt == TypeV::Prim(PrimType::Bool)),
        (op == BinOp::And || op == BinOp::Or || op == BinOp::Xor) && binop_result(st, l, op, lt, rt) is Ok
            ==> binop_result(st, l, op, lt, rt) == Ok::<TypeV, TypeErrorV>(TypeV::Prim(PrimType::Bool)),
        (op == BinOp::BitAnd || op == BinOp::BitOr) ==> (binop_result(st, l, op, lt, rt) is Ok <==> lt
            == TypeV::Prim(PrimType::Int) && rt == TypeV::Prim(PrimType::Int)),
        (op == BinOp::BitAnd || op == BinOp::BitOr) && binop_result(st, l, op, lt, rt) is Ok
            ==> binop_result(st, l, op, lt, rt) == Ok::<TypeV, TypeErrorV>(TypeV::Prim(PrimType::Int)),
{
}

/// Literals check to their own types without touching the checker: an
/// integer literal is an `Int`, a float literal a `Float`, a string
/// literal a `String`.
pub proof fn lemma_literal_types(st: CheckerV, n: i64, digits: Seq<char>, chars: Seq<char>)
    ensures
        t_expr(st, ExprV::IntLiteral(n)) == done(st, TypeV::Prim(PrimType::Int)),
        t_expr(st, ExprV::FloatLiteral(digits)) == done(st, TypeV::Prim(PrimType::Float)),
        t_expr(st, ExprV::StringLiteral(chars)) == done(st, TypeV::Prim(PrimType::String)),
{
}

/// A `let` or `const` declaration whose expression checks to `t` declares
/// the name with type `t` in the innermost scope, when no type is written
/// or the written one is `t`, and leaves every other name as it was; a
/// written type other than `t` is a mismatch. Both kinds check alike.
pub proof fn lemma_declaration_types(st: CheckerV, name: Seq<char>, ty: Option<TypeV>, x: ExprV, t: TypeV)
    requires
        t_expr(st, x).res == Ok::<TypeV, TypeErrorV>(t),
        t_expr(st, x).st.scopes.len() > 0,
    ensures
        t_stmt(st, StmtV::Const(name, ty, x)) == t_stmt(st, StmtV::Let(name, ty, x)),
        ({
            let a = t_expr(st, x).st;
            let s = t_stmt(st, StmtV::Let(name, ty, x));
            &&& (ty is None || ty == Some(t)) ==> {
                &&& s.res is Ok
                &&& s.st.scopes.len() == a.scopes.len()
                &&& lookup_var(s.st.scopes, name) == Some(t)
                &&& forall|other: Seq<char>| other != name ==> #[trigger] lookup_var(s.st.scopes, other) == lookup_var(
                    a.scopes,
                    other,
                )
            }
            &&& (ty matches Some(u) && u != t) ==> s.res is Err && s.st == a
        }),
{
    let a = t_expr(st, x).st;
    let sc = a.scopes.drop_last().push(a.scopes.last().insert(name, t));
    assert(sc.drop_last() =~= a.scopes.drop_last());
    assert forall|other: Seq<char>| other != name implies #[trigger] lookup_var(sc, other) == lookup_var(
        a.scopes,
        other,
    ) by {
        assert(sc.last() == a.scopes.last().insert(name, t));
    }
}

/// The condition of an `if` or `while` statement must check to `Bool`:
/// any other type is a mismatch that names `Bool`.
pub proof fn lemma_conditions_are_bool(st: CheckerV, c: ExprV, then_e: ExprV, else_e: Option<ExprV>, ct: TypeV)
    requires
        t_expr(st, c).res == Ok::<TypeV, TypeErrorV>(ct),
        ct != TypeV::Prim(PrimType::Bool),
    ensures
        t_stmt(st, StmtV::If(Box::new(c), then_e, else_e)).res is Err,
        t_stmt(st, StmtV::While(Box::new(c), then_e)).res is Err,
        t_expr(st, ExprV::While(Box::new(c), Box::new(StmtV::Expr(then_e)))).res is Err,
{
}

/// The type of a unary operator applied to an operand that checks to `t`:
/// `-` keeps a numeric type, `Int` or `Float`, and refuses any other; `!`
/// turns `Bool` into `Bool` and refuses any other. The checker is left as
/// checking the operand left it.
pub proof fn lemma_unop_typing(st: CheckerV, x: ExprV, t: TypeV)
    requires
        t_expr(st, x).res == Ok::<TypeV, TypeErrorV>(t),
    ensures
        t_expr(st, ExprV::UnaryOp(UnaryOp::Neg, Box::new(x))).st == t_expr(st, x).st,
        t_expr(st, ExprV::UnaryOp(UnaryOp::Not, Box::new(x))).st == t_expr(st, x).st,
        (t == TypeV::Prim(PrimType::Int) || t == TypeV::Prim(PrimType::Float)) ==> t_expr(
            st,
            ExprV::UnaryOp(UnaryOp::Neg, Box::new(x)),
        ).res == Ok::<TypeV, TypeErrorV>(t),
        !(t == TypeV::Prim(PrimType::Int) || t == TypeV::Prim(PrimType::Float)) ==> t_expr(
            st,
            ExprV::UnaryOp(UnaryOp::Neg, Box::new(x)),
        ).res is Err,
        t == TypeV::Prim(PrimType::Bool) ==> t_expr(st, ExprV::UnaryOp(UnaryOp::Not, Box::new(x))).res
            == Ok::<TypeV, TypeErrorV>(TypeV::Prim(PrimType::Bool)),
        t != TypeV::Prim(PrimType::Bool) ==> t_expr(st, ExprV::UnaryOp(UnaryOp::Not, Box::new(x))).res is Err,
{
}

/// Arguments from the `i`-th on that each check to their own type without
/// touching the checker pass exactly when each type is the parameter type
/// in the same position.
proof fn lemma_args_typing(st: CheckerV, args: Seq<ExprV>, ps: Seq<TypeV>, ts: Seq<TypeV>, i: int)
    requires
        0 <= i <= args.len(),
        args.len() == ts.len(),
        args.len() == ps.len(),
        forall|k: int| 0 <= k < args.len() ==> #[trigger] t_expr(st, args[k]) == done(st, ts[k]),
    ensures
        (forall|k: int| i <= k < args.len() ==> ts[k] == ps[k]) ==> t_args(st, args, ps, i) == done(st, ()),
        (exists|k: int| i <= k < args.len() && ts[k] != ps[k]) ==> t_args(st, args, ps, i).res is Err,
    decreases args.len() - i,
{
    if i < args.len() {
        assert(t_expr(st, args[i]) == done(st, ts[i]));
        lemma_args_typing(st, args, ps, ts, i + 1);
        if ts[i] == ps[i] {
            assert((exists|k: int| i <= k < args.len() && ts[k] != ps[k]) ==> (exists|k: int|
                i + 1 <= k < args.len() && ts[k] != ps[k]));
        }
    }
}

/// A call checks against the signature of the function it names: with
/// arguments that check to the types `ts`, it has the function's return
/// type when their number and types are those of the parameters, in order,
/// and is an error otherwise; a call of an undeclared function is an error
/// that names it.
pub proof fn lemma_call_typing(st: CheckerV, name: Seq<char>, args: Seq<ExprV>, ts: Seq<TypeV>)
    requires
        args.len() == ts.len(),
        forall|k: int| 0 <= k < args.len() ==> #[trigger] t_expr(st, args[k]) == done(st, ts[k]),
    ensures
        !st.functions.contains_key(name) ==> t_expr(st, ExprV::Call(name, args)) == failed::<TypeV>(
            st,
            TypeErrorV::UndefinedFunction(name),
        ),
        st.functions.contains_key(name) ==> ({
            let sig = st.functions[name];
            let r = t_expr(st, ExprV::Call(name, args));
            &&& ts == sig.1 ==> r == done(st, sig.0)
            &&& ts != sig.1 ==> r.res is Err
        }),
{
    if st.functions.contains_key(name) {
        let sig = st.functions[name];
        if args.len() == sig.1.len() {
            lemma_args_typing(st, args, sig.1, ts, 0);
            if ts != sig.1 {
                assert(!(ts =~= sig.1));
            } else {
                assert(forall|k: int| 0 <= k < args.len() ==> ts[k] == sig.1[k]);
            }
        }
    }
}

/// The scope of a function's parameters gives each parameter, when no two
/// share a name, its declared type.
proof fn lemma_params_scope(ps: Seq<(Seq<char>, TypeV)>, i: int)
    requires
        0 <= i < ps.len(),
        forall|a: int, b: int| 0 <= a < b < ps.len() ==> ps[a].0 != ps[b].0,
    ensures
        params_scope(ps).contains_key(ps[i].0),
        params_scope(ps)[ps[i].0] == ps[i].1,
    decreases ps.len(),
{
    if i < ps.len() - 1 {
        let d = ps.drop_last();
        assert forall|a: int, b: int| 0 <= a < b < d.len() implies d[a].0 != d[b].0 by {
            assert(d[a] == ps[a] && d[b] == ps[b]);
        }
        lemma_params_scope(d, i);
        assert(d[i] == ps[i]);
        assert(ps[i].0 != ps.last().0);
    }
}

/// A function's body is checked in a scope where each parameter, when no
/// two share a name, has its declared type, and with the function itself
/// declared (so that it may call itself). The function checks when its
/// body checks to the declared return type, or when that type is `Int`,
/// which asks nothing of the body; otherwise it is a return type mismatch.
/// Afterwards the function is declared.
pub proof fn lemma_fn_typing(
    st: CheckerV,
    name: Seq<char>,
    params: Seq<(Seq<char>, TypeV)>,
    ret: TypeV,
    body: ExprV,
    bt: TypeV,
)
    requires
        st.scopes.len() > 0,
        forall|a: int, b: int| 0 <= a < b < params.len() ==> params[a].0 != params[b].0,
        t_expr(
            CheckerV {
                scopes: st.scopes.push(params_scope(params)),
                functions: st.functions.insert(name, (ret, param_types(params))),
                structs: st.structs,
            },
            body,
        ).res == Ok::<TypeV, TypeErrorV>(bt),
    ensures
        forall|i: int| #![trigger params[i]] 0 <= i < params.len() ==> lookup_var(
            st.scopes.push(params_scope(params)),
            params[i].0,
        ) == Some(params[i].1),
        ({
            let r = t_item(st, ItemV::Fn { name, params, ret, body });
            &&& r.res is Ok <==> (bt == ret || ret == TypeV::Prim(PrimType::Int))
            &&& !(bt == ret || ret == TypeV::Prim(PrimType::Int)) ==> r.res == Err::<(), TypeErrorV>(
                TypeErrorV::ReturnTypeMismatch { expected: type_text(ret), got: type_text(bt) },
            )
            &&& r.st.functions.contains_key(name)
        }),
{
    let entered = CheckerV {
        scopes: st.scopes.push(params_scope(params)),
        functions: st.functions.insert(name, (ret, param_types(params))),
        structs: st.structs,
    };
    assert forall|i: int| #![trigger params[i]] 0 <= i < params.len() implies lookup_var(
        st.scopes.push(params_scope(params)),
        params[i].0,
    ) == Some(params[i].1) by {
        lemma_params_scope(params, i);
    }
    lemma_expr_balanced(entered, body);
    assert(entered.functions.dom().contains(name));
}

/// A `for` loop needs `Int` bounds, and checks its body in a state where
/// the loop variable is an `Int`.
pub proof fn lemma_for_typing(st: CheckerV, var: Seq<char>, start: ExprV, end: ExprV, body: ExprV, s_t: TypeV, e_t: TypeV)
    requires
        st.scopes.len() > 0,
        t_expr(st, start) == done(st, s_t),
        t_expr(st, end) == done(st, e_t),
    ensures
        (s_t != TypeV::Prim(PrimType::Int) || e_t != TypeV::Prim(PrimType::Int)) ==> t_stmt(
            st,
            StmtV::For(var, Box::new(start), Box::new(end), body),
        ).res is Err,
        (s_t == TypeV::Prim(PrimType::Int) && e_t == TypeV::Prim(PrimType::Int)) ==> ({
            let inner = declare(st, var, TypeV::Prim(PrimType::Int));
            let r = t_stmt(st, StmtV::For(var, Box::new(start), Box::new(end), body));
            &&& lookup_var(inner.scopes, var) == Some(TypeV::Prim(PrimType::Int))
            &&& r.res is Ok <==> t_expr(inner, body).res is Ok
        }),
{
}

/// In a field list where no two fields share a name, the field named
/// `fs[i].0` has the type `fs[i].1`; a name that no field has is found
/// nowhere.
proof fn lemma_distinct_fields(fs: Seq<(Seq<char>, TypeV)>, name: Seq<char>, i: int)
    requires
        forall|a: int, b: int| 0 <= a < b < fs.len() ==> fs[a].0 != fs[b].0,
    ensures
        0 <= i < fs.len() ==> find_field(fs, fs[i].0) == Some(fs[i].1),
        (forall|k: int| 0 <= k < fs.len() ==> #[trigger] fs[k].0 != name) ==> find_field(fs, name) is None,
    decreases fs.len(),
{
    if fs.len() > 0 {
        let d = fs.drop_first();
        assert forall|a: int, b: int| 0 <= a < b < d.len() implies d[a].0 != d[b].0 by {
            assert(d[a] == fs[a + 1] && d[b] == fs[b + 1]);
        }
        lemma_distinct_fields(d, name, i - 1);
        if 0 < i < fs.len() {
            assert(d[i - 1] == fs[i]);
            assert(fs[0].0 != fs[i].0);
        }
        if forall|k: int| 0 <= k < fs.len() ==> #[trigger] fs[k].0 != name {
            assert(fs[0].0 != name);
            assert forall|k: int| 0 <= k < d.len() implies #[trigger] d[k].0 != name by {
                assert(d[k] == fs[k + 1]);
            }
        }
    }
}

/// Reading a field of a value of a declared struct, whose fields have
/// distinct names, gives the declared type of that field; a name the
/// struct does not declare is an error that names the struct and the
/// field.
pub proof fn lemma_field_typing(st: CheckerV, obj: ExprV, sname: Seq<char>, field: Seq<char>)
    requires
        t_expr(st, obj) == done(st, TypeV::Struct(sname)),
        st.structs.contains_key(sname),
        forall|a: int, b: int| 0 <= a < b < st.structs[sname].len() ==> st.structs[sname][a].0
            != st.structs[sname][b].0,
    ensures
        forall|i: int| #![trigger st.structs[sname][i]] 0 <= i < st.structs[sname].len() && field
            == st.structs[sname][i].0 ==> t_expr(st, ExprV::FieldAccess(Box::new(obj), field)) == done(
            st,
            st.structs[sname][i].1,
        ),
        (forall|k: int| 0 <= k < st.structs[sname].len() ==> #[trigger] st.structs[sname][k].0 != field) ==> t_expr(
            st,
            ExprV::FieldAccess(Box::new(obj), field),
        ) == failed::<TypeV>(st, TypeErrorV::FieldNotFound { struct_name: sname, field }),
{
    let fs = st.structs[sname];
    assert forall|i: int| #![trigger st.structs[sname][i]] 0 <= i < fs.len() && field == fs[i].0 implies t_expr(
        st,
        ExprV::FieldAccess(Box::new(obj), field),
    ) == done(st, fs[i].1) by {
        lemma_distinct_fields(fs, field, i);
    }
    lemma_distinct_fields(fs, field, -1);
}

/// Field initialisers from the `i`-th on, each checking to the declared
/// type of the field it names without touching the checker, pass.
proof fn lemma_inits_typing(
    st: CheckerV,
    sname: Seq<char>,
    defs: Seq<(Seq<char>, TypeV)>,
    inits: Seq<(Seq<char>, ExprV)>,
    i: int,
)
    requires
        0 <= i <= inits.len(),
        forall|k: int| 0 <= k < inits.len() ==> (find_field(defs, #[trigger] inits[k].0) matches Some(t) && t_expr(
            st,
            inits[k].1,
        ) == done(st, t)),
    ensures
        t_inits(st, sname, defs, inits, i) == done(st, ()),
    decreases inits.len() - i,
{
    if i < inits.len() {
        assert(find_field(defs, inits[i].0) is Some);
        lemma_inits_typing(st, sname, defs, inits, i + 1);
    }
}

/// A literal of a declared struct whose initialisers each check to the
/// declared type of the field they name has that struct's type; a literal
/// of an undeclared struct is an error.
pub proof fn lemma_struct_literal_typing(st: CheckerV, sname: Seq<char>, inits: Seq<(Seq<char>, ExprV)>)
    requires
        st.structs.contains_key(sname) ==> forall|k: int| 0 <= k < inits.len() ==> (find_field(
            st.structs[sname],
            #[trigger] inits[k].0,
        ) matches Some(t) && t_expr(st, inits[k].1) == done(st, t)),
    ensures
        st.structs.contains_key(sname) ==> t_expr(st, ExprV::StructInit(sname, inits)) == done(
            st,
            TypeV::Struct(sname),
        ),
        !st.structs.contains_key(sname) ==> t_expr(st, ExprV::StructInit(sname, inits)).res is Err,
{
    if st.structs.contains_key(sname) {
        lemma_inits_typing(st, sname, st.structs[sname], inits, 0);
    }
}

/// An `if` whose condition is a `Bool` has the type of its branches: with
/// an `else`, both branches must have the same type, and a difference is a
/// mismatch naming both; without one, the type of the first branch.
pub proof fn lemma_branch_typing(st: CheckerV, c: ExprV, then_e: ExprV, else_e: ExprV, tt: TypeV, et: TypeV)
    requires
        t_expr(st, c) == done(st, TypeV::Prim(PrimType::Bool)),
        t_expr(st, then_e) == done(st, tt),
        t_expr(st, else_e) == done(st, et),
    ensures
        t_stmt(st, StmtV::If(Box::new(c), then_e, None)) == done(st, tt),
        tt == et ==> t_stmt(st, StmtV::If(Box::new(c), then_e, Some(else_e))) == done(st, tt),
        tt != et ==> t_stmt(st, StmtV::If(Box::new(c), then_e, Some(else_e))) == failed::<TypeV>(
            st,
            mismatch(type_text(tt), type_text(et)),
        ),
{
}

// ----- the checker --------------------------------------------------------

/// Whether an executable result agrees with a specified one.
pub open spec fn outcome<A: View>(r: Result<A, TypeError>, s: Result<A::V, TypeErrorV>) -> bool {
    match r {
        Ok(a) => s == Ok::<A::V, TypeErrorV>(a@),
        Err(e) => s == Err::<A::V, TypeErrorV>(e@),
    }
}

fn is_prim(t: &Type, p: PrimType) -> (r: bool)
    ensures
        r == (t@ == TypeV::Prim(p)),
{
    match t {
        Type::Prim(q) => *q == p,
        _ => false,
    }
}

fn mismatch_error(expected: String, got: String) -> (e: TypeError)
    ensures
        e@ == mismatch(expected@, got@),
{
    TypeError::TypeMismatch { expected, got }
}

fn pair_text_of(l: &Type, r: &Type) -> (s: String)
    ensures
        s@ == pair_text(l@, r@),
{
    let mut s = l.to_string();
    push_text(&mut s, " and ");
    let t = r.to_string();
    push_text(&mut s, t.as_str());
    s
}

/// The position of the first field named `name`.
fn find_field_in(fs: &Vec<(String, Type)>, name: &String) -> (r: Option<usize>)
    ensures
        match r {
            Some(j) => j < fs.len() && find_field(named_types_view(fs@), name@) == Some(
                type_view(fs@[j as int].1),
            ),
            None => find_field(named_types_view(fs@), name@) is None,
        },
{
    let ghost v = named_types_view(fs@);
    let mut j: usize = 0;
    while j < fs.len()
        invariant
            j <= fs.len(),
            v == named_types_view(fs@),
            forall|k: int| 0 <= k < j ==> #[trigger] v[k].0 != name@,
        decreases fs.len() - j,
    {
        if fs[j].0 == *name {
            proof {
                lemma_find_field(v, name@, j as int);
            }
            return Some(j);
        }
        j += 1;
    }
    proof {
        lemma_find_field(v, name@, j as int);
    }
    None
}

impl TypeChecker {
    /// The position of the innermost scope that declares `name`.
    fn innermost(&self, name: &String) -> (r: Option<usize>)
        ensures
            match r {
                Some(i) => i < self@.scopes.len() && self@.scopes[i as int].contains_key(name@)
                    && forall|j: int|
                    i < j < self@.scopes.len() ==> !#[trigger] self@.scopes[j].contains_key(name@),
                None => forall|j: int|
                    0 <= j < self@.scopes.len() ==> !#[trigger] self@.scopes[j].contains_key(name@),
            },
    {
        let mut i: usize = self.types.len();
        while i > 0
            invariant
                i <= self.types.len(),
                forall|j: int|
                    i <= j < self@.scopes.len() ==> !#[trigger] self@.scopes[j].contains_key(name@),
            decreases i,
        {
            if self.types[i - 1].contains_key(name) {
                return Some(i - 1);
            }
            i -= 1;
        }
        None
    }

    /// Declares `name` as `t` in the innermost scope.
    fn declare_var(&mut self, name: &String, t: Type)
        requires
            old(self).wf(),
        ensures
            final(self).types.len() == old(self).types.len(),
            final(self)@ == declare(old(self)@, name@, t@),
    {
        let n = self.types.len();
        let ghost before = self@;
        self.types[n - 1].insert(name.clone(), t);
        assert(self@.scopes =~= before.scopes.drop_last().push(before.scopes.last().insert(name@, t@)));
    }

    fn binop_type(&self, l: &Expr, op: BinOp, lt: Type, rt: Type) -> (r: Result<Type, TypeError>)
        ensures
            outcome(r, binop_result(self@, l@, op, lt@, rt@)),
    {
        match op {
            BinOp::Add | BinOp::Sub | BinOp::Mul | BinOp::Div | BinOp::Mod => {
                if is_prim(&lt, PrimType::Int) && is_prim(&rt, PrimType::Int) {
                    Ok(Type::Prim(PrimType::Int))
                } else if is_prim(&lt, PrimType::Float) && is_prim(&rt, PrimType::Float) {
                    Ok(Type::Prim(PrimType::Float))
                } else {
                    Err(mismatch_error(text("Int or Float"), pair_text_of(&lt, &rt)))
                }
            },
            BinOp::Lt | BinOp::Le | BinOp::Gt | BinOp::Ge => {
                if type_eq(&lt, &rt) {
                    Ok(Type::Prim(PrimType::Bool))
                } else {
                    Err(mismatch_error(lt.to_string(), rt.to_string()))
                }
            },
            BinOp::Eq | BinOp::Ne => Ok(Type::Prim(PrimType::Bool)),
            BinOp::And | BinOp::Or | BinOp::Xor => {
                if is_prim(&lt, PrimType::Bool) && is_prim(&rt, PrimType::Bool) {
                    Ok(Type::Prim(PrimType::Bool))
                } else {
                    Err(mismatch_error(text("Bool"), pair_text_of(&lt, &rt)))
                }
            },
            BinOp::BitAnd | BinOp::BitOr => {
                if is_prim(&lt, PrimType::Int) && is_prim(&rt, PrimType::Int) {
                    Ok(Type::Prim(PrimType::Int))
                } else {
                    Err(TypeError::InvalidOperand { op: binop_text(op), operand_type: pair_text_of(&lt, &rt) })
                }
            },
            BinOp::Assign => match l {
                Expr::Ident(name) => match self.innermost(name) {
                    Some(i) => {
                        proof {
                            lemma_innermost(self@.scopes, name@, rt@, i as int);
                        }
                        Ok(rt)
                    },
                    None => {
                        proof {
                            lemma_undeclared(self@.scopes, name@, rt@);
                        }
                        Err(TypeError::UndefinedVariable(name.clone()))
                    },
                },
                _ => Err(TypeError::NotAType(text("Invalid assignment target"))),
            },
        }
    }

    fn unop_type(op: UnaryOp, t: Type) -> (r: Result<Type, TypeError>)
        ensures
            outcome(r, unop_result(op, t@)),
    {
        match op {
            UnaryOp::Neg => {
                if is_prim(&t, PrimType::Int) || is_prim(&t, PrimType::Float) {
                    Ok(t)
                } else {
                    Err(TypeError::InvalidOperand { op: text("-"), operand_type: t.to_string() })
                }
            },
            UnaryOp::Not => {
                if is_prim(&t, PrimType::Bool) {
                    Ok(Type::Prim(PrimType::Bool))
                } else {
                    Err(TypeError::InvalidOperand { op: text("!"), operand_type: t.to_string() })
                }
            },
            _ => {
                let mut m = text("Unknown unary op: ");
                let n = unop_text(op);
                push_text(&mut m, n.as_str());
                Err(TypeError::NotAType(m))
            },
        }
    }

    fn field_type(&self, t: Type, field: &String) -> (r: Result<Type, TypeError>)
        ensures
            outcome(r, field_result(self@, t@, field@)),
    {
        match t {
            Type::Struct(sname) => match self.structs.get(&sname) {
                Some(fl) => match find_field_in(&fl.fields, field) {
                    Some(j) => Ok(fl.fields[j].1.clone()),
                    None => Err(TypeError::FieldNotFound { struct_name: sname, field: field.clone() }),
                },
                None => Err(TypeError::UndefinedVariable(sname)),
            },
            _ => {
                let mut m = text("Cannot access field on ");
                let d = t.to_string();
                push_text(&mut m, d.as_str());
                Err(TypeError::NotAType(m))
            },
        }
    }

    fn check_expr(&mut self, expr: &Expr) -> (r: Result<Type, TypeError>)
        requires
            old(self).wf(),
        ensures
            final(self).types.len() >= old(self).types.len(),
            final(self)@ == t_expr(old(self)@, expr@).st,
            outcome(r, t_expr(old(self)@, expr@).res),
        decreases expr, 1int,
    {
        match expr {
            Expr::IntLiteral(_) => Ok(Type::Prim(PrimType::Int)),
            Expr::FloatLiteral(_) => Ok(Type::Prim(PrimType::Float)),
            Expr::StringLiteral(_) => Ok(Type::Prim(PrimType::String)),
            Expr::Ident(name) => match self.innermost(name) {
                Some(i) => {
                    proof {
                        lemma_innermost(self@.scopes, name@, int_t(), i as int);
                    }
                    match self.types[i].get(name) {
                        Some(t) => Ok(t.clone()),
                        None => Err(TypeError::UndefinedVariable(name.clone())),
                    }
                },
                None => {
                    proof {
                        lemma_undeclared(self@.scopes, name@, int_t());
                    }
                    Err(TypeError::UndefinedVariable(name.clone()))
                },
            },
            Expr::BinaryOp(l, op, r) => {
                let lt = match self.check_expr(l) {
                    Ok(t) => t,
                    Err(e) => return Err(e),
                };
                let rt = match self.check_expr(r) {
                    Ok(t) => t,
                    Err(e) => return Err(e),
                };
                self.binop_type(l, *op, lt, rt)
            },
            Expr::UnaryOp(op, x) => {
                let t = match self.check_expr(x) {
                    Ok(t) => t,
                    Err(e) => return Err(e),
                };
                Self::unop_type(*op, t)
            },
            Expr::Call(name, args) => self.check_call(name, args),
            Expr::StructInit(name, inits) => self.check_init(name, inits),
            Expr::FieldAccess(obj, field) => {
                let t = match self.check_expr(obj) {
                    Ok(t) => t,
                    Err(e) => return Err(e),
                };
                self.field_type(t, field)
            },
            Expr::Block(stmts) => self.check_block(stmts),
            Expr::If(c, then_s, else_s) => {
                let ct = match self.check_expr(c) {
                    Ok(t) => t,
                    Err(e) => return Err(e),
                };
                if !is_prim(&ct, PrimType::Bool) {
                    return Err(mismatch_error(text("Bool"), ct.to_string()));
                }
                let tt = match self.check_stmt(then_s) {
                    Ok(t) => t,
                    Err(e) => return Err(e),
                };
                match else_s {
                    Some(es) => {
                        let et = match self.check_stmt(es) {
                            Ok(t) => t,
                            Err(e) => return Err(e),
                        };
                        if !type_eq(&tt, &et) {
                            return Err(mismatch_error(tt.to_string(), et.to_string()));
                        }
                    },
                    None => {},
                }
                Ok(tt)
            },
            Expr::While(c, body) => {
                let ct = match self.check_expr(c) {
                    Ok(t) => t,
                    Err(e) => return Err(e),
                };
                if !is_prim(&ct, PrimType::Bool) {
                    return Err(mismatch_error(text("Bool"), ct.to_string()));
                }
                match self.check_stmt(body) {
                    Ok(_) => {},
                    Err(e) => return Err(e),
                }
                Ok(Type::Prim(PrimType::Int))
            },
            Expr::Return(v) => match v {
                Some(x) => self.check_expr(x),
                None => Ok(Type::Prim(PrimType::Int)),
            },
            Expr::Break => Ok(Type::Prim(PrimType::Int)),
            Expr::Continue => Ok(Type::Prim(PrimType::Int)),
        }
    }

    /// A call of `name` with `args`.
    #[verifier::loop_isolation(false)]
    fn check_call(&mut self, name: &String, args: &Vec<Expr>) -> (r: Result<Type, TypeError>)
        requires
            old(self).wf(),
        ensures
            ({
                let c = t_expr(old(self)@, ExprV::Call(name@, exprs_view(args@)));
                &&& final(self).types.len() >= old(self).types.len()
                &&& final(self)@ == c.st
                &&& outcome(r, c.res)
            }),
        decreases args, 0int,
    {
        let (ret, params) = match self.functions.get(name) {
            Some(sig) => (sig.ret.clone(), copy_types(&sig.params)),
            None => return Err(TypeError::UndefinedFunction(name.clone())),
        };
        let ghost av = exprs_view(args@);
        let ghost pv = types_view(params@);
        if args.len() != params.len() {
            assert(av.len() != pv.len());
            let mut e = usize_text(params.len());
            push_text(&mut e, " args");
            let mut g = usize_text(args.len());
            push_text(&mut g, " args");
            return Err(mismatch_error(e, g));
        }
        let ghost s0 = self@;
        let mut i: usize = 0;
        while i < args.len()
            invariant
                self.wf(),
                self.types.len() >= old(self).types.len(),
                0 <= i <= args.len(),
                args.len() == params.len(),
                av == exprs_view(args@),
                pv == types_view(params@),
                t_args(s0, av, pv, 0) == t_args(self@, av, pv, i as int),
            decreases args.len() - i,
        {
            proof {
                assert(decreases_to!(*args => args@));
                assert(decreases_to!(args@ => args@[i as int]));
            }
            let at = match self.check_expr(&args[i]) {
                Ok(t) => t,
                Err(e) => return Err(e),
            };
            if !type_eq(&at, &params[i]) {
                return Err(mismatch_error(params[i].to_string(), at.to_string()));
            }
            i += 1;
        }
        Ok(ret)
    }

    /// A literal of struct `name` with field initialisers `inits`.
    #[verifier::loop_isolation(false)]
    fn check_init(&mut self, name: &String, inits: &Vec<(String, Expr)>) -> (r: Result<Type, TypeError>)
        requires
            old(self).wf(),
        ensures
            ({
                let c = t_expr(old(self)@, ExprV::StructInit(name@, inits_view(inits@)));
                &&& final(self).types.len() >= old(self).types.len()
                &&& final(self)@ == c.st
                &&& outcome(r, c.res)
            }),
        decreases inits, 0int,
    {
        let defs = match self.structs.get(name) {
            Some(fl) => copy_named_types(&fl.fields),
            None => {
                let mut m = text("Unknown struct: ");
                push_text(&mut m, name.as_str());
                return Err(TypeError::UndefinedVariable(m));
            },
        };
        let ghost iv = inits_view(inits@);
        let ghost dv = named_types_view(defs@);
        let ghost s0 = self@;
        let mut i: usize = 0;
        while i < inits.len()
            invariant
                self.wf(),
                self.types.len() >= old(self).types.len(),
                0 <= i <= inits.len(),
                iv == inits_view(inits@),
                dv == named_types_view(defs@),
                t_inits(s0, name@, dv, iv, 0) == t_inits(self@, name@, dv, iv, i as int),
            decreases inits.len() - i,
        {
            proof {
                assert(decreases_to!(*inits => inits@));
                assert(decreases_to!(inits@ => inits@[i as int]));
                assert(decreases_to!(inits@[i as int] => inits@[i as int].1));
            }
            let ft = match self.check_expr(&inits[i].1) {
                Ok(t) => t,
                Err(e) => return Err(e),
            };
            match find_field_in(&defs, &inits[i].0) {
                Some(j) => {
                    if !type_eq(&ft, &defs[j].1) {
                        return Err(mismatch_error(defs[j].1.to_string(), ft.to_string()));
                    }
                },
                None => {
                    return Err(
                        TypeError::FieldNotFound { struct_name: name.clone(), field: inits[i].0.clone() },
                    );
                },
            }
            i += 1;
        }
        Ok(Type::Struct(name.clone()))
    }

    /// A block of statements, in a scope of its own.
    #[verifier::loop_isolation(false)]
    fn check_block(&mut self, stmts: &Vec<Stmt>) -> (r: Result<Type, TypeError>)
        requires
            old(self).wf(),
        ensures
            ({
                let c = t_expr(old(self)@, ExprV::Block(stmts_view(stmts@)));
                &&& final(self).types.len() >= old(self).types.len()
                &&& final(self)@ == c.st
                &&& outcome(r, c.res)
            }),
        decreases stmts, 0int,
    {
        let ghost sv = stmts_view(stmts@);
        let ghost s0 = old(self)@;
        self.types.push(NameMap::new());
        assert(self@.scopes =~= s0.scopes.push(Map::empty()));
        let ghost s1 = self@;
        let ghost n1 = self.types.len();
        let mut result = Type::Prim(PrimType::Int);
        let mut i: usize = 0;
        while i < stmts.len()
            invariant
                self.wf(),
                self.types.len() >= n1,
                0 <= i <= stmts.len(),
                sv == stmts_view(stmts@),
                t_stmts(s1, sv, 0, int_t()) == t_stmts(self@, sv, i as int, result@),
            decreases stmts.len() - i,
        {
            proof {
                assert(decreases_to!(*stmts => stmts@));
                assert(decreases_to!(stmts@ => stmts@[i as int]));
            }
            result = match self.check_stmt(&stmts[i]) {
                Ok(t) => t,
                Err(e) => return Err(e),
            };
            i += 1;
        }
        let ghost s2 = self@;
        self.types.pop();
        assert(self@.scopes =~= s2.scopes.drop_last());
        Ok(result)
    }

    fn check_stmt(&mut self, stmt: &Stmt) -> (r: Result<Type, TypeError>)
        requires
            old(self).wf(),
        ensures
            final(self).types.len() >= old(self).types.len(),
            final(self)@ == t_stmt(old(self)@, stmt@).st,
            outcome(r, t_stmt(old(self)@, stmt@).res),
        decreases stmt, 1int,
    {
        match stmt {
            Stmt::Let(name, ty, x) => self.check_declaration(name, ty, x),
            Stmt::Const(name, ty, x) => self.check_declaration(name, ty, x),
            Stmt::Mut(name, x) => {
                let t = match self.check_expr(x) {
                    Ok(t) => t,
                    Err(e) => return Err(e),
                };
                match self.innermost(name) {
                    Some(i) => {
                        proof {
                            lemma_innermost(self@.scopes, name@, t@, i as int);
                        }
                        let ghost before = self@;
                        self.types[i].insert(name.clone(), t.clone());
                        assert(self@.scopes =~= before.scopes.update(
                            i as int,
                            before.scopes[i as int].insert(name@, t@),
                        ));
                        Ok(t)
                    },
                    None => {
                        proof {
                            lemma_undeclared(self@.scopes, name@, t@);
                        }
                        Err(TypeError::UndefinedVariable(name.clone()))
                    },
                }
            },
            Stmt::Expr(x) => self.check_expr(x),
            Stmt::Return(v) => match v {
                Some(x) => self.check_expr(x),
                None => Ok(Type::Prim(PrimType::Int)),
            },
            Stmt::Item(it) => {
                match self.check_item(it) {
                    Ok(_) => {},
                    Err(e) => return Err(e),
                }
                Ok(Type::Prim(PrimType::Int))
            },
            Stmt::For(var, start, end, body) => {
                let st_t = match self.check_expr(start) {
                    Ok(t) => t,
                    Err(e) => return Err(e),
                };
                let en_t = match self.check_expr(end) {
                    Ok(t) => t,
                    Err(e) => return Err(e),
                };
                if !is_prim(&st_t, PrimType::Int) || !is_prim(&en_t, PrimType::Int) {
                    return Err(mismatch_error(text("Int"), pair_text_of(&st_t, &en_t)));
                }
                self.declare_var(var, Type::Prim(PrimType::Int));
                match self.check_expr(body) {
                    Ok(_) => {},
                    Err(e) => return Err(e),
                }
                Ok(Type::Prim(PrimType::Int))
            },
            Stmt::If(c, then_e, else_e) => {
                let ct = match self.check_expr(c) {
                    Ok(t) => t,
                    Err(e) => return Err(e),
                };
                if !is_prim(&ct, PrimType::Bool) {
                    return Err(mismatch_error(text("Bool"), ct.to_string()));
                }
                let tt = match self.check_expr(then_e) {
                    Ok(t) => t,
                    Err(e) => return Err(e),
                };
                match else_e {
                    Some(ee) => {
                        let et = match self.check_expr(ee) {
                            Ok(t) => t,
                            Err(e) => return Err(e),
                        };
                        if !type_eq(&tt, &et) {
                            return Err(mismatch_error(tt.to_string(), et.to_string()));
                        }
                    },
                    None => {},
                }
                Ok(tt)
            },
            Stmt::While(c, body) => {
                let ct = match self.check_expr(c) {
                    Ok(t) => t,
                    Err(e) => return Err(e),
                };
                if !is_prim(&ct, PrimType::Bool) {
                    return Err(mismatch_error(text("Bool"), ct.to_string()));
                }
                match self.check_expr(body) {
                    Ok(_) => {},
                    Err(e) => return Err(e),
                }
                Ok(Type::Prim(PrimType::Int))
            },
        }
    }

    /// `let` and `const`: the initialiser, checked against a declared type,
    /// and the name declared in the innermost scope.
    fn check_declaration(&mut self, name: &String, ty: &Option<Type>, x: &Expr) -> (r: Result<Type, TypeError>)
        requires
            old(self).wf(),
        ensures
            ({
                let c = t_declare(t_expr(old(self)@, x@), name@, opt_type_view(*ty));
                &&& final(self).types.len() >= old(self).types.len()
                &&& final(self)@ == c.st
                &&& outcome(r, c.res)
            }),
        decreases x, 2int,
    {
        let t = match self.check_expr(x) {
            Ok(t) => t,
            Err(e) => return Err(e),
        };
        match ty {
            Some(expected) => {
                if !type_eq(&t, expected) {
                    return Err(mismatch_error(expected.to_string(), t.to_string()));
                }
            },
            None => {},
        }
        self.declare_var(name, t);
        Ok(Type::Prim(PrimType::Int))
    }

    fn check_item(&mut self, item: &Item) -> (r: Result<(), TypeError>)
        ensures
            final(self).types.len() >= old(self).types.len(),
            final(self)@ == t_item(old(self)@, item@).st,
            outcome(r, t_item(old(self)@, item@).res),
        decreases item, 1int,
    {
        match item {
            Item::Fn { name, params, ret, body } => {
                let ghost s0 = self@;
                let ghost pv = named_types_view(params@);
                let mut ptypes: Vec<Type> = Vec::new();
                let mut scope: NameMap<Type> = NameMap::new();
                let mut i: usize = 0;
                while i < params.len()
                    invariant
                        i <= params.len(),
                        pv == named_types_view(params@),
                        ptypes.len() == i,
                        types_view(ptypes@) == param_types(pv).take(i as int),
                        scope@ == params_scope(pv.take(i as int)),
                    decreases params.len() - i,
                {
                    let (pname, ptype) = &params[i];
                    proof {
                        lemma_params_scope_step(pv, i as int);
                    }
                    let ghost before = ptypes@;
                    ptypes.push(ptype.clone());
                    scope.insert(pname.clone(), ptype.clone());
                    i += 1;
                    assert(types_view(ptypes@) =~= param_types(pv).take(i as int)) by {
                        assert(types_view(before) =~= param_types(pv).take(i - 1));
                    }
                }
                assert(pv.take(params.len() as int) =~= pv);
                assert(param_types(pv).take(params.len() as int) =~= param_types(pv));
                self.functions.insert(name.clone(), Signature { ret: ret.clone(), params: ptypes });
                self.types.push(scope);
                assert(self@.scopes =~= s0.scopes.push(params_scope(pv)));
                let bt = match self.check_expr(body) {
                    Ok(t) => t,
                    Err(e) => return Err(e),
                };
                let ghost s2 = self@;
                self.types.pop();
                assert(self@.scopes =~= s2.scopes.drop_last());
                if !type_eq(&bt, ret) && !is_prim(ret, PrimType::Int) {
                    return Err(TypeError::ReturnTypeMismatch { expected: ret.to_string(), got: bt.to_string() });
                }
                Ok(())
            },
            Item::Struct { name, fields } => {
                self.structs.insert(name.clone(), FieldList { fields: copy_named_types(fields) });
                Ok(())
            },
            Item::Import { .. } => Ok(()),
        }
    }

    /// Checks the items in order, stopping at the first error.
    pub fn check_items(&mut self, items: &[Item]) -> (r: Result<(), TypeError>)
        ensures
            final(self).types.len() >= old(self).types.len(),
            final(self)@ == t_items(old(self)@, items_view(items@), 0).st,
            outcome(r, t_items(old(self)@, items_view(items@), 0).res),
    {
        let ghost iv = items_view(items@);
        let ghost s0 = self@;
        let mut i: usize = 0;
        while i < items.len()
            invariant
                self.types.len() >= old(self).types.len(),
                0 <= i <= items.len(),
                iv == items_view(items@),
                s0 == old(self)@,
                t_items(s0, iv, 0) == t_items(self@, iv, i as int),
            decreases items.len() - i,
        {
            let r = self.check_item(&items[i]);
            match r {
                Ok(_) => {},
                Err(e) => return Err(e),
            }
            i += 1;
        }
        Ok(())
    }
}

} // verus!
