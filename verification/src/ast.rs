//! The syntax tree, its mathematical view, and deep copies.

use vstd::prelude::*;

verus! {

/// Binary operators, from `||` down to `*`, plus assignment.
#[derive(Clone, Copy, Debug, PartialEq, Eq, Structural)]
pub enum BinOp {
    Add,
    Sub,
    Mul,
    Div,
    Mod,
    Eq,
    Ne,
    Lt,
    Le,
    Gt,
    Ge,
    And,
    Or,
    Xor,
    BitAnd,
    BitOr,
    Assign,
}

/// Unary operators.
#[derive(Clone, Copy, Debug, PartialEq, Eq, Structural)]
pub enum UnaryOp {
    Neg,
    Not,
    Deref,
    Ref,
}

/// Built-in scalar types.
#[derive(Clone, Copy, Debug, PartialEq, Eq, Structural)]
pub enum PrimType {
    Int,
    Int8,
    Int16,
    Int32,
    Int64,
    UInt,
    UInt8,
    UInt16,
    UInt32,
    UInt64,
    Float,
    Float32,
    Float64,
    Bool,
    Char,
    String,
}

/// A type as written in a program.
#[derive(Debug, PartialEq)]
pub enum Type {
    Prim(PrimType),
    Struct(String),
    Fn(Box<Type>, Vec<Type>),
    ForeignPtr(Box<Type>),
    Slice(Box<Type>),
    Ptr(Box<Type>),
    Unit,
}

/// An expression. A `FloatLiteral` keeps the digits it was written with.
#[derive(Debug)]
pub enum Expr {
    IntLiteral(i64),
    FloatLiteral(String),
    StringLiteral(String),
    Ident(String),
    BinaryOp(Box<Expr>, BinOp, Box<Expr>),
    UnaryOp(UnaryOp, Box<Expr>),
    Call(String, Vec<Expr>),
    StructInit(String, Vec<(String, Expr)>),
    FieldAccess(Box<Expr>, String),
    Block(Vec<Stmt>),
    If(Box<Expr>, Box<Stmt>, Option<Box<Stmt>>),
    While(Box<Expr>, Box<Stmt>),
    Return(Option<Box<Expr>>),
    Break,
    Continue,
}

/// A statement.
#[derive(Debug)]
pub enum Stmt {
    Let(String, Option<Type>, Expr),
    Mut(String, Expr),
    Const(String, Option<Type>, Expr),
    Expr(Expr),
    Return(Option<Box<Expr>>),
    Item(Item),
    For(String, Box<Expr>, Box<Expr>, Expr),
    If(Box<Expr>, Expr, Option<Expr>),
    While(Box<Expr>, Expr),
}

/// A top-level item.
#[derive(Debug)]
pub enum Item {
    Fn { name: String, params: Vec<(String, Type)>, ret: Type, body: Expr },
    Struct { name: String, fields: Vec<(String, Type)> },
    Import { path: String, alias: Option<String> },
}

/// The view of a [`Type`]: names become character sequences.
pub enum TypeV {
    Prim(PrimType),
    Struct(Seq<char>),
    Fn(Box<TypeV>, Seq<TypeV>),
    ForeignPtr(Box<TypeV>),
    Slice(Box<TypeV>),
    Ptr(Box<TypeV>),
    Unit,
}

/// The view of an [`Expr`].
pub enum ExprV {
    IntLiteral(i64),
    FloatLiteral(Seq<char>),
    StringLiteral(Seq<char>),
    Ident(Seq<char>),
    BinaryOp(Box<ExprV>, BinOp, Box<ExprV>),
    UnaryOp(UnaryOp, Box<ExprV>),
    Call(Seq<char>, Seq<ExprV>),
    StructInit(Seq<char>, Seq<(Seq<char>, ExprV)>),
    FieldAccess(Box<ExprV>, Seq<char>),
    Block(Seq<StmtV>),
    If(Box<ExprV>, Box<StmtV>, Option<Box<StmtV>>),
    While(Box<ExprV>, Box<StmtV>),
    Return(Option<Box<ExprV>>),
    Break,
    Continue,
}

/// The view of a [`Stmt`].
pub enum StmtV {
    Let(Seq<char>, Option<TypeV>, ExprV),
    Mut(Seq<char>, ExprV),
    Const(Seq<char>, Option<TypeV>, ExprV),
    Expr(ExprV),
    Return(Option<Box<ExprV>>),
    Item(ItemV),
    For(Seq<char>, Box<ExprV>, Box<ExprV>, ExprV),
    If(Box<ExprV>, ExprV, Option<ExprV>),
    While(Box<ExprV>, ExprV),
}

/// The view of an [`Item`].
pub enum ItemV {
    Fn { name: Seq<char>, params: Seq<(Seq<char>, TypeV)>, ret: TypeV, body: ExprV },
    Struct { name: Seq<char>, fields: Seq<(Seq<char>, TypeV)> },
    Import { path: Seq<char>, alias: Option<Seq<char>> },
}

pub open spec fn type_view(t: Type) -> TypeV
    decreases t,
{
    match t {
        Type::Prim(p) => TypeV::Prim(p),
        Type::Struct(s) => TypeV::Struct(s@),
        Type::Fn(r, args) => TypeV::Fn(Box::new(type_view(*r)), types_view(args@)),
        Type::ForeignPtr(t) => TypeV::ForeignPtr(Box::new(type_view(*t))),
        Type::Slice(t) => TypeV::Slice(Box::new(type_view(*t))),
        Type::Ptr(t) => TypeV::Ptr(Box::new(type_view(*t))),
        Type::Unit => TypeV::Unit,
    }
}

/// Views of a list of types.
pub open spec fn types_view(ts: Seq<Type>) -> Seq<TypeV>
    decreases ts,
{
    Seq::new(
        ts.len(),
        |k: int|
            if 0 <= k < ts.len() {
                type_view(ts[k])
            } else {
                TypeV::Unit
            },
    )
}

/// Views of a list of named types (parameters, fields).
pub open spec fn named_types_view(ts: Seq<(String, Type)>) -> Seq<(Seq<char>, TypeV)> {
    Seq::new(ts.len(), |k: int| (ts[k].0@, type_view(ts[k].1)))
}

pub open spec fn opt_type_view(t: Option<Type>) -> Option<TypeV> {
    match t {
        Some(t) => Some(type_view(t)),
        None => None,
    }
}

pub open spec fn expr_view(e: Expr) -> ExprV
    decreases e,
{
    match e {
        Expr::IntLiteral(n) => ExprV::IntLiteral(n),
        Expr::FloatLiteral(s) => ExprV::FloatLiteral(s@),
        Expr::StringLiteral(s) => ExprV::StringLiteral(s@),
        Expr::Ident(s) => ExprV::Ident(s@),
        Expr::BinaryOp(l, op, r) => ExprV::BinaryOp(Box::new(expr_view(*l)), op, Box::new(expr_view(*r))),
        Expr::UnaryOp(op, x) => ExprV::UnaryOp(op, Box::new(expr_view(*x))),
        Expr::Call(f, args) => ExprV::Call(f@, exprs_view(args@)),
        Expr::StructInit(n, fs) => ExprV::StructInit(n@, inits_view(fs@)),
        Expr::FieldAccess(x, f) => ExprV::FieldAccess(Box::new(expr_view(*x)), f@),
        Expr::Block(ss) => ExprV::Block(stmts_view(ss@)),
        Expr::If(c, t, e) => ExprV::If(
            Box::new(expr_view(*c)),
            Box::new(stmt_view(*t)),
            match e {
                Some(e) => Some(Box::new(stmt_view(*e))),
                None => None,
            },
        ),
        Expr::While(c, b) => ExprV::While(Box::new(expr_view(*c)), Box::new(stmt_view(*b))),
        Expr::Return(v) => ExprV::Return(
            match v {
                Some(v) => Some(Box::new(expr_view(*v))),
                None => None,
            },
        ),
        Expr::Break => ExprV::Break,
        Expr::Continue => ExprV::Continue,
    }
}

/// Views of a list of expressions.
pub open spec fn exprs_view(es: Seq<Expr>) -> Seq<ExprV>
    decreases es,
{
    Seq::new(
        es.len(),
        |k: int|
            if 0 <= k < es.len() {
                expr_view(es[k])
            } else {
                ExprV::Break
            },
    )
}

/// Views of the field initialisers of a struct literal.
pub open spec fn inits_view(fs: Seq<(String, Expr)>) -> Seq<(Seq<char>, ExprV)>
    decreases fs,
{
    Seq::new(
        fs.len(),
        |k: int|
            if 0 <= k < fs.len() {
                (fs[k].0@, expr_view(fs[k].1))
            } else {
                (Seq::empty(), ExprV::Break)
            },
    )
}

/// Views of a list of statements.
pub open spec fn stmts_view(ss: Seq<Stmt>) -> Seq<StmtV>
    decreases ss,
{
    Seq::new(
        ss.len(),
        |k: int|
            if 0 <= k < ss.len() {
                stmt_view(ss[k])
            } else {
                StmtV::Expr(ExprV::Break)
            },
    )
}

pub open spec fn stmt_view(s: Stmt) -> StmtV
    decreases s,
{
    match s {
        Stmt::Let(n, t, e) => StmtV::Let(n@, opt_type_view(t), expr_view(e)),
        Stmt::Mut(n, e) => StmtV::Mut(n@, expr_view(e)),
        Stmt::Const(n, t, e) => StmtV::Const(n@, opt_type_view(t), expr_view(e)),
        Stmt::Expr(e) => StmtV::Expr(expr_view(e)),
        Stmt::Return(v) => StmtV::Return(
            match v {
                Some(v) => Some(Box::new(expr_view(*v))),
                None => None,
            },
        ),
        Stmt::Item(i) => StmtV::Item(item_view(i)),
        Stmt::For(n, a, b, body) => StmtV::For(
            n@,
            Box::new(expr_view(*a)),
            Box::new(expr_view(*b)),
            expr_view(body),
        ),
        Stmt::If(c, t, e) => StmtV::If(
            Box::new(expr_view(*c)),
            expr_view(t),
            match e {
                Some(e) => Some(expr_view(e)),
                None => None,
            },
        ),
        Stmt::While(c, b) => StmtV::While(Box::new(expr_view(*c)), expr_view(b)),
    }
}

pub open spec fn item_view(i: Item) -> ItemV
    decreases i,
{
    match i {
        Item::Fn { name, params, ret, body } => ItemV::Fn {
            name: name@,
            params: named_types_view(params@),
            ret: type_view(ret),
            body: expr_view(body),
        },
        Item::Struct { name, fields } => ItemV::Struct { name: name@, fields: named_types_view(fields@) },
        Item::Import { path, alias } => ItemV::Import {
            path: path@,
            alias: match alias {
                Some(a) => Some(a@),
                None => None,
            },
        },
    }
}

/// Views of a list of items.
pub open spec fn items_view(items: Seq<Item>) -> Seq<ItemV> {
    Seq::new(items.len(), |k: int| items[k]@)
}

impl View for Type {
    type V = TypeV;

    open spec fn view(&self) -> TypeV {
        type_view(*self)
    }
}

impl View for Expr {
    type V = ExprV;

    open spec fn view(&self) -> ExprV {
        expr_view(*self)
    }
}

impl View for Stmt {
    type V = StmtV;

    open spec fn view(&self) -> StmtV {
        stmt_view(*self)
    }
}

impl View for Item {
    type V = ItemV;

    open spec fn view(&self) -> ItemV {
        item_view(*self)
    }
}

/// Structural equality of types.
#[verifier::loop_isolation(false)]
pub fn type_eq(a: &Type, b: &Type) -> (r: bool)
    ensures
        r == (a@ == b@),
    decreases a,
{
    match a {
        Type::Prim(x) => match b {
            Type::Prim(y) => *x == *y,
            _ => false,
        },
        Type::Struct(x) => match b {
            Type::Struct(y) => *x == *y,
            _ => false,
        },
        Type::ForeignPtr(x) => match b {
            Type::ForeignPtr(y) => type_eq(x, y),
            _ => false,
        },
        Type::Slice(x) => match b {
            Type::Slice(y) => type_eq(x, y),
            _ => false,
        },
        Type::Ptr(x) => match b {
            Type::Ptr(y) => type_eq(x, y),
            _ => false,
        },
        Type::Unit => match b {
            Type::Unit => true,
            _ => false,
        },
        Type::Fn(r1, a1) => match b {
            Type::Fn(r2, a2) => {
                if !type_eq(r1, r2) {
                    return false;
                }
                if a1.len() != a2.len() {
                    assert(types_view(a1@).len() != types_view(a2@).len());
                    return false;
                }
                let mut i: usize = 0;
                while i < a1.len()
                    invariant
                        0 <= i <= a1.len(),
                        a1.len() == a2.len(),
                        forall|k: int| 0 <= k < i ==> type_view(a1@[k]) == type_view(a2@[k]),
                    decreases a1.len() - i,
                {
                    proof {
                        assert(decreases_to!(*a => *a1));
                        assert(decreases_to!(*a1 => a1@));
                        assert(decreases_to!(a1@ => a1@[i as int]));
                    }
                    if !type_eq(&a1[i], &a2[i]) {
                        assert(types_view(a1@)[i as int] != types_view(a2@)[i as int]);
                        return false;
                    }
                    i += 1;
                }
                assert(types_view(a1@) =~= types_view(a2@));
                true
            },
            _ => false,
        },
    }
}

/// A copy of a type.
#[verifier::loop_isolation(false)]
pub fn copy_type(t: &Type) -> (r: Type)
    ensures
        r@ == t@,
    decreases t,
{
    match t {
        Type::Prim(p) => Type::Prim(*p),
        Type::Struct(s) => Type::Struct(s.clone()),
        Type::ForeignPtr(x) => Type::ForeignPtr(Box::new(copy_type(x))),
        Type::Slice(x) => Type::Slice(Box::new(copy_type(x))),
        Type::Ptr(x) => Type::Ptr(Box::new(copy_type(x))),
        Type::Unit => Type::Unit,
        Type::Fn(x, args) => {
            let mut v: Vec<Type> = Vec::new();
            let mut i: usize = 0;
            while i < args.len()
                invariant
                    0 <= i <= args.len(),
                    v.len() == i,
                    forall|k: int| 0 <= k < i ==> type_view(v@[k]) == type_view(args@[k]),
                decreases args.len() - i,
            {
                proof {
                    assert(decreases_to!(*t => *args));
                    assert(decreases_to!(*args => args@));
                    assert(decreases_to!(args@ => args@[i as int]));
                }
                v.push(copy_type(&args[i]));
                i += 1;
            }
            let r = Type::Fn(Box::new(copy_type(x)), v);
            assert(types_view(v@) =~= types_view(args@));
            r
        },
    }
}

/// A copy of a list of types.
pub fn copy_types(ts: &Vec<Type>) -> (r: Vec<Type>)
    ensures
        types_view(r@) == types_view(ts@),
{
    let mut v: Vec<Type> = Vec::new();
    let mut i: usize = 0;
    while i < ts.len()
        invariant
            0 <= i <= ts.len(),
            v.len() == i,
            forall|k: int| 0 <= k < i ==> type_view(v@[k]) == type_view(ts@[k]),
        decreases ts.len() - i,
    {
        v.push(copy_type(&ts[i]));
        i += 1;
    }
    assert(types_view(v@) =~= types_view(ts@));
    v
}

/// A copy of a list of named types.
pub fn copy_named_types(ts: &Vec<(String, Type)>) -> (r: Vec<(String, Type)>)
    ensures
        named_types_view(r@) == named_types_view(ts@),
{
    let mut v: Vec<(String, Type)> = Vec::new();
    let mut i: usize = 0;
    while i < ts.len()
        invariant
            0 <= i <= ts.len(),
            v.len() == i,
            forall|k: int| 0 <= k < i ==> v@[k].0@ == ts@[k].0@ && type_view(v@[k].1) == type_view(ts@[k].1),
        decreases ts.len() - i,
    {
        let (n, t) = &ts[i];
        v.push((n.clone(), copy_type(t)));
        i += 1;
    }
    assert(named_types_view(v@) =~= named_types_view(ts@));
    v
}

impl Clone for Type {
    fn clone(&self) -> (r: Self)
        ensures
            r@ == self@,
    {
        copy_type(self)
    }
}


/// A copy of a list of expressions.
fn copy_exprs(es: &Vec<Expr>) -> (r: Vec<Expr>)
    ensures
        exprs_view(r@) == exprs_view(es@),
    decreases es, 0int,
{
    let mut v: Vec<Expr> = Vec::new();
    let mut i: usize = 0;
    while i < es.len()
        invariant
            0 <= i <= es.len(),
            v.len() == i,
            forall|k: int| 0 <= k < i ==> expr_view(v@[k]) == expr_view(es@[k]),
        decreases es.len() - i,
    {
        proof {
            assert(decreases_to!(*es => es@));
            assert(decreases_to!(es@ => es@[i as int]));
        }
        v.push(copy_expr(&es[i]));
        i += 1;
    }
    assert(exprs_view(v@) =~= exprs_view(es@));
    v
}

/// A copy of the field initialisers of a struct literal.
fn copy_inits(fs: &Vec<(String, Expr)>) -> (r: Vec<(String, Expr)>)
    ensures
        inits_view(r@) == inits_view(fs@),
    decreases fs, 0int,
{
    let mut v: Vec<(String, Expr)> = Vec::new();
    let mut i: usize = 0;
    while i < fs.len()
        invariant
            0 <= i <= fs.len(),
            v.len() == i,
            forall|k: int|
                0 <= k < i ==> v@[k].0@ == fs@[k].0@ && expr_view(v@[k].1) == expr_view(fs@[k].1),
        decreases fs.len() - i,
    {
        proof {
            assert(decreases_to!(*fs => fs@));
            assert(decreases_to!(fs@ => fs@[i as int]));
            assert(decreases_to!(fs@[i as int] => fs@[i as int].1));
        }
        let x = copy_expr(&fs[i].1);
        v.push((fs[i].0.clone(), x));
        i += 1;
    }
    assert(inits_view(v@) =~= inits_view(fs@));
    v
}

/// A copy of a list of statements.
fn copy_stmts(ss: &Vec<Stmt>) -> (r: Vec<Stmt>)
    ensures
        stmts_view(r@) == stmts_view(ss@),
    decreases ss, 0int,
{
    let mut v: Vec<Stmt> = Vec::new();
    let mut i: usize = 0;
    while i < ss.len()
        invariant
            0 <= i <= ss.len(),
            v.len() == i,
            forall|k: int| 0 <= k < i ==> stmt_view(v@[k]) == stmt_view(ss@[k]),
        decreases ss.len() - i,
    {
        proof {
            assert(decreases_to!(*ss => ss@));
            assert(decreases_to!(ss@ => ss@[i as int]));
        }
        v.push(copy_stmt(&ss[i]));
        i += 1;
    }
    assert(stmts_view(v@) =~= stmts_view(ss@));
    v
}

fn copy_opt_type(t: &Option<Type>) -> (r: Option<Type>)
    ensures
        opt_type_view(r) == opt_type_view(*t),
{
    match t {
        Some(t) => Some(copy_type(t)),
        None => None,
    }
}

/// A copy of an expression.
pub fn copy_expr(e: &Expr) -> (r: Expr)
    ensures
        r@ == e@,
    decreases e, 1int,
{
    match e {
        Expr::IntLiteral(n) => Expr::IntLiteral(*n),
        Expr::FloatLiteral(s) => Expr::FloatLiteral(s.clone()),
        Expr::StringLiteral(s) => Expr::StringLiteral(s.clone()),
        Expr::Ident(s) => Expr::Ident(s.clone()),
        Expr::BinaryOp(l, op, r) => Expr::BinaryOp(Box::new(copy_expr(l)), *op, Box::new(copy_expr(r))),
        Expr::UnaryOp(op, x) => Expr::UnaryOp(*op, Box::new(copy_expr(x))),
        Expr::Call(f, args) => Expr::Call(f.clone(), copy_exprs(args)),
        Expr::StructInit(n, fs) => Expr::StructInit(n.clone(), copy_inits(fs)),
        Expr::FieldAccess(x, f) => Expr::FieldAccess(Box::new(copy_expr(x)), f.clone()),
        Expr::Block(ss) => Expr::Block(copy_stmts(ss)),
        Expr::If(c, t, e2) => Expr::If(
            Box::new(copy_expr(c)),
            Box::new(copy_stmt(t)),
            match e2 {
                Some(x) => Some(Box::new(copy_stmt(x))),
                None => None,
            },
        ),
        Expr::While(c, b) => Expr::While(Box::new(copy_expr(c)), Box::new(copy_stmt(b))),
        Expr::Return(v) => Expr::Return(
            match v {
                Some(x) => Some(Box::new(copy_expr(x))),
                None => None,
            },
        ),
        Expr::Break => Expr::Break,
        Expr::Continue => Expr::Continue,
    }
}

/// A copy of a statement.
pub fn copy_stmt(s: &Stmt) -> (r: Stmt)
    ensures
        r@ == s@,
    decreases s, 1int,
{
    match s {
        Stmt::Let(n, t, e) => Stmt::Let(n.clone(), copy_opt_type(t), copy_expr(e)),
        Stmt::Mut(n, e) => Stmt::Mut(n.clone(), copy_expr(e)),
        Stmt::Const(n, t, e) => Stmt::Const(n.clone(), copy_opt_type(t), copy_expr(e)),
        Stmt::Expr(e) => Stmt::Expr(copy_expr(e)),
        Stmt::Return(v) => Stmt::Return(
            match v {
                Some(x) => Some(Box::new(copy_expr(x))),
                None => None,
            },
        ),
        Stmt::Item(i) => Stmt::Item(copy_item(i)),
        Stmt::For(n, a, b, body) => Stmt::For(
            n.clone(),
            Box::new(copy_expr(a)),
            Box::new(copy_expr(b)),
            copy_expr(body),
        ),
        Stmt::If(c, t, e) => Stmt::If(
            Box::new(copy_expr(c)),
            copy_expr(t),
            match e {
                Some(x) => Some(copy_expr(x)),
                None => None,
            },
        ),
        Stmt::While(c, b) => Stmt::While(Box::new(copy_expr(c)), copy_expr(b)),
    }
}

/// A copy of an item.
pub fn copy_item(i: &Item) -> (r: Item)
    ensures
        r@ == i@,
    decreases i, 1int,
{
    match i {
        Item::Fn { name, params, ret, body } => Item::Fn {
            name: name.clone(),
            params: copy_named_types(params),
            ret: copy_type(ret),
            body: copy_expr(body),
        },
        Item::Struct { name, fields } => Item::Struct {
            name: name.clone(),
            fields: copy_named_types(fields),
        },
        Item::Import { path, alias } => Item::Import {
            path: path.clone(),
            alias: match alias {
                Some(a) => Some(a.clone()),
                None => None,
            },
        },
    }
}

impl Clone for Expr {
    fn clone(&self) -> (r: Self)
        ensures
            r@ == self@,
    {
        copy_expr(self)
    }
}

impl Clone for Stmt {
    fn clone(&self) -> (r: Self)
        ensures
            r@ == self@,
    {
        copy_stmt(self)
    }
}

impl Clone for Item {
    fn clone(&self) -> (r: Self)
        ensures
            r@ == self@,
    {
        copy_item(self)
    }
}

} // verus!
