//! Recursive-descent parsing of a token sequence into items.
//!
//! The specification reads the tokens as a sequence of [`Tok`]s (kind,
//! text, and the line and column where each starts) and
//! describes each parsing routine as a function from a position to a
//! [`Parsed`] outcome: a value or an error message, and the position the
//! parser stops at (on an error too, since the parser can be asked to go on).
//! Every routine that succeeds has read at least one token; the
//! specification's recursive calls on positions returned by other routines
//! are guarded by that fact, which the progress lemmas below prove, so the
//! guards never decide an outcome.

use vstd::prelude::*;
use crate::ast::{BinOp, Expr, ExprV, Item, ItemV, PrimType, Stmt, StmtV, Type, TypeV, UnaryOp};
use crate::ast::{exprs_view, items_view, named_types_view, stmts_view};
use crate::lexer::{SpannedToken, Token, TokenKind, has_text, kind_name, kind_name_text};
use crate::interp::{FloatOp, FloatOpV, ask, float_of, floats_ok};
use crate::text::{dec_text, debug_quoted, push_char, push_text, str_debug, text, usize_text};

verus! {

broadcast use vstd::string::group_string_axioms;

/// The outcome of a parsing routine: a value or an error message, and the
/// position reached.
pub struct Parsed<T> {
    pub res: Result<T, Seq<char>>,
    pub pos: int,
}

pub open spec fn ok<T>(v: T, pos: int) -> Parsed<T> {
    Parsed { res: Ok(v), pos }
}

pub open spec fn fail<T>(m: Seq<char>, pos: int) -> Parsed<T> {
    Parsed { res: Err(m), pos }
}

/// A token as the parser reads it: its kind and text, the line and column
/// where it starts, and for a number the value the float function reads
/// from its text: the integer it stands for (`int_val`), and what `Debug`
/// prints for it (`shown`).
pub struct Tok {
    pub kind: TokenKind,
    pub text: Seq<char>,
    pub line: int,
    pub col: int,
    pub int_val: Option<int>,
    pub shown: Seq<char>,
}

/// 2 to the `e`.
pub open spec fn two_pow(e: nat) -> nat
    decreases e,
{
    if e == 0 {
        1
    } else {
        2 * two_pow((e - 1) as nat)
    }
}

/// The value of the binary64 float with bit pattern `b` when that value is
/// a whole number: `(2^52 + mantissa) * 2^(exponent - 1075)` with its sign,
/// zero for a zero; none for a float with a fraction, an infinity or a NaN.
pub open spec fn whole_of_bits(b: u64) -> Option<int> {
    let neg = b >= 0x8000_0000_0000_0000;
    let ex = (b / 0x10_0000_0000_0000) % 2048;
    let man = b % 0x10_0000_0000_0000;
    let m: nat = (0x10_0000_0000_0000 + man) as nat;
    let mag: Option<nat> = if ex == 2047 {
        None
    } else if ex == 0 {
        if man == 0 {
            Some(0)
        } else {
            None
        }
    } else if ex >= 1075 {
        Some(m * two_pow((ex - 1075) as nat))
    } else if m % two_pow((1075 - ex) as nat) == 0 {
        Some(m / two_pow((1075 - ex) as nat))
    } else {
        None
    };
    match mag {
        Some(v) => Some(if neg { -v } else { v as int }),
        None => None,
    }
}

/// The integer a number literal whose float has bit pattern `b` stands
/// for: the float's value when it is a whole number from -2^63 to 2^63,
/// saturated to `i64::MAX`.
pub open spec fn literal_int(b: u64) -> Option<int> {
    match whole_of_bits(b) {
        Some(v) => if -0x8000_0000_0000_0000 <= v <= 0x8000_0000_0000_0000 {
            Some(if v > i64::MAX { i64::MAX as int } else { v })
        } else {
            None
        },
        None => None,
    }
}

/// The character an ASCII code stands for, `?` for another code.
pub open spec fn ascii_char(c: u64) -> char {
    if c < 128 {
        (c as u8) as char
    } else {
        '?'
    }
}

/// What `Debug` prints for the float with bit pattern `b`, as the float
/// function tells it.
pub open spec fn float_text<F: Fn(FloatOp) -> u64>(flt: F, b: u64) -> Seq<char> {
    Seq::new(
        float_of(flt, FloatOpV::TextLen(b)) as nat,
        |i: int| ascii_char(float_of(flt, FloatOpV::TextChar(b, i as u64))),
    )
}

/// How the parser reads a spanned token, a number's value read by the
/// float function `flt`.
pub open spec fn tok_of<F: Fn(FloatOp) -> u64>(flt: F, t: SpannedToken) -> Tok {
    let v = t.token@;
    let b = float_of(flt, FloatOpV::Parse(v.text));
    Tok {
        kind: v.kind,
        text: v.text,
        line: t.line as int,
        col: t.column as int,
        int_val: if v.kind == TokenKind::Number {
            literal_int(b)
        } else {
            None
        },
        shown: if v.kind == TokenKind::Number {
            float_text(flt, b)
        } else {
            Seq::empty()
        },
    }
}

/// Where a token starts, as an error message tells it.
pub open spec fn loc_text(t: Tok) -> Seq<char> {
    " at line "@ + dec_text(t.line as nat) + ", column "@ + dec_text(t.col as nat)
}

/// Where the token at `p` starts, as an error message tells it; nothing
/// past the tokens.
pub open spec fn loc_at(toks: Seq<Tok>, p: int) -> Seq<char> {
    if 0 <= p < toks.len() {
        loc_text(toks[p])
    } else {
        Seq::empty()
    }
}

/// The token at position `p`, if there is one.
pub open spec fn at(toks: Seq<Tok>, p: int) -> Option<Tok> {
    if 0 <= p < toks.len() {
        Some(toks[p])
    } else {
        None
    }
}

/// Whether there is a token of kind `k` at position `p`.
pub open spec fn is_at(toks: Seq<Tok>, p: int, k: TokenKind) -> bool {
    0 <= p < toks.len() && toks[p].kind == k
}

/// Whether position `p` is past the tokens or at an `Eof`.
pub open spec fn at_end(toks: Seq<Tok>, p: int) -> bool {
    !(0 <= p < toks.len()) || toks[p].kind == TokenKind::Eof
}

/// The text `Debug` prints for a token; a number prints its value.
pub open spec fn token_debug(t: Tok) -> Seq<char> {
    if has_text(t.kind) {
        kind_name(t.kind) + seq!['('] + (if t.kind == TokenKind::Number {
            t.shown
        } else {
            str_debug(t.text)
        }) + seq![')']
    } else {
        kind_name(t.kind)
    }
}

/// The message for a missing token of kind `k`.
pub open spec fn expected_msg(k: TokenKind, got: Option<Tok>) -> Seq<char> {
    "Expected "@ + kind_name(k) + ", got "@ + match got {
        Some(t) => token_debug(t),
        None => "EOF"@,
    }
}

/// The message for a position where no item starts.
pub open spec fn item_msg(got: Option<Tok>) -> Seq<char> {
    "Expected item (fn, struct, import), got "@ + match got {
        Some(t) => "Some("@ + token_debug(t) + ")"@,
        None => "None"@,
    }
}

/// The expression a number token stands for: an integer literal where its
/// value is a whole number within `i64` (see [`literal_int`]), otherwise a
/// float literal that keeps the token's digits.
pub open spec fn number_expr(t: Tok) -> ExprV {
    match t.int_val {
        Some(v) => ExprV::IntLiteral(v as i64),
        None => ExprV::FloatLiteral(t.text),
    }
}

/// The operator of precedence level `level` (0 is `||`, 8 is `*`) that a
/// token of kind `k` denotes, if any.
pub open spec fn binop_at(level: int, k: TokenKind) -> Option<BinOp> {
    if level == 0 {
        if k == TokenKind::Or {
            Some(BinOp::Or)
        } else {
            None
        }
    } else if level == 1 {
        if k == TokenKind::And {
            Some(BinOp::And)
        } else {
            None
        }
    } else if level == 2 {
        if k == TokenKind::Xor {
            Some(BinOp::Xor)
        } else {
            None
        }
    } else if level == 3 {
        if k == TokenKind::BitOr {
            Some(BinOp::BitOr)
        } else {
            None
        }
    } else if level == 4 {
        if k == TokenKind::BitAnd {
            Some(BinOp::BitAnd)
        } else {
            None
        }
    } else if level == 5 {
        if k == TokenKind::EqEq {
            Some(BinOp::Eq)
        } else if k == TokenKind::BangEq {
            Some(BinOp::Ne)
        } else {
            None
        }
    } else if level == 6 {
        if k == TokenKind::Less {
            Some(BinOp::Lt)
        } else if k == TokenKind::LessEq {
            Some(BinOp::Le)
        } else if k == TokenKind::Greater {
            Some(BinOp::Gt)
        } else if k == TokenKind::GreaterEq {
            Some(BinOp::Ge)
        } else {
            None
        }
    } else if level == 7 {
        if k == TokenKind::Plus {
            Some(BinOp::Add)
        } else if k == TokenKind::Minus {
            Some(BinOp::Sub)
        } else {
            None
        }
    } else if k == TokenKind::Star {
        Some(BinOp::Mul)
    } else if k == TokenKind::Slash {
        Some(BinOp::Div)
    } else if k == TokenKind::Percent {
        Some(BinOp::Mod)
    } else {
        None
    }
}

/// Reads one token, which must be of kind `k`.
pub open spec fn p_expect(toks: Seq<Tok>, p: int, k: TokenKind) -> Parsed<Tok> {
    match at(toks, p) {
        Some(t) => if t.kind == k {
            ok(t, p + 1)
        } else {
            fail(expected_msg(k, Some(t)) + loc_text(t), p + 1)
        },
        None => fail(expected_msg(k, None), p + 1),
    }
}

/// Reads an identifier.
pub open spec fn p_ident(toks: Seq<Tok>, p: int) -> Parsed<Seq<char>> {
    if is_at(toks, p, TokenKind::Ident) {
        ok(toks[p].text, p + 1)
    } else {
        fail("Expected identifier"@ + loc_at(toks, p), p + 1)
    }
}

/// Reads a string literal.
pub open spec fn p_string(toks: Seq<Tok>, p: int) -> Parsed<Seq<char>> {
    if is_at(toks, p, TokenKind::StringLiteral) {
        ok(toks[p].text, p + 1)
    } else {
        fail("Expected string"@ + loc_at(toks, p), p + 1)
    }
}

/// The primitive type a type name stands for, if it names one.
pub open spec fn prim_named(name: Seq<char>) -> Option<PrimType> {
    if name == "Int"@ {
        Some(PrimType::Int)
    } else if name == "Int8"@ {
        Some(PrimType::Int8)
    } else if name == "Int16"@ {
        Some(PrimType::Int16)
    } else if name == "Int32"@ {
        Some(PrimType::Int32)
    } else if name == "Int64"@ {
        Some(PrimType::Int64)
    } else if name == "UInt"@ {
        Some(PrimType::UInt)
    } else if name == "UInt8"@ {
        Some(PrimType::UInt8)
    } else if name == "UInt16"@ {
        Some(PrimType::UInt16)
    } else if name == "UInt32"@ {
        Some(PrimType::UInt32)
    } else if name == "UInt64"@ {
        Some(PrimType::UInt64)
    } else if name == "Float"@ {
        Some(PrimType::Float)
    } else if name == "Float32"@ {
        Some(PrimType::Float32)
    } else if name == "Float64"@ {
        Some(PrimType::Float64)
    } else if name == "Bool"@ {
        Some(PrimType::Bool)
    } else if name == "Char"@ {
        Some(PrimType::Char)
    } else if name == "String"@ {
        Some(PrimType::String)
    } else {
        None
    }
}

/// The type a name denotes: a primitive type or a struct.
pub open spec fn named_type(name: Seq<char>) -> TypeV {
    match prim_named(name) {
        Some(q) => TypeV::Prim(q),
        None => TypeV::Struct(name),
    }
}

/// A type: `type` (read as `Int`), a name, `name[]` or `name*`; a name of a
/// primitive type (`Int`, `Float`, `Bool`, `String`, ...) denotes that type.
pub open spec fn p_type(toks: Seq<Tok>, p: int) -> Parsed<TypeV> {
    if is_at(toks, p, TokenKind::Type) {
        ok(TypeV::Prim(PrimType::Int), p + 1)
    } else {
        let n = p_ident(toks, p);
        match n.res {
            Err(m) => fail(m, n.pos),
            Ok(name) => if is_at(toks, n.pos, TokenKind::LBracket) {
                let x = p_expect(toks, n.pos + 1, TokenKind::RBracket);
                match x.res {
                    Err(m) => fail(m, x.pos),
                    Ok(_) => ok(TypeV::Slice(Box::new(named_type(name))), x.pos),
                }
            } else if is_at(toks, n.pos, TokenKind::Star) {
                ok(TypeV::Ptr(Box::new(named_type(name))), n.pos + 1)
            } else {
                ok(named_type(name), n.pos)
            },
        }
    }
}

/// The operand of precedence level `level`: the next level, or a unary
/// expression below the last one.
pub open spec fn p_operand(toks: Seq<Tok>, level: int, p: int) -> Parsed<ExprV>
    decreases toks.len() - p, rank_operand(level),
{
    if 0 <= level < 8 {
        p_binary(toks, level + 1, p)
    } else {
        p_unary(toks, p)
    }
}

/// Termination rank of [`p_operand`] at a level: between the ranks of
/// [`p_binary`] at that level and at the next.
pub open spec fn rank_operand(level: int) -> int {
    if 0 <= level <= 8 {
        28 - 2 * level
    } else {
        12
    }
}

/// Termination rank of [`p_binary`] at a level.
pub open spec fn rank_binary(level: int) -> int {
    if 0 <= level <= 8 {
        29 - 2 * level
    } else {
        13
    }
}

/// Whether `q` lies past `p` and within the tokens: what a successful
/// routine started at `p` leaves behind.
pub open spec fn moved(toks: Seq<Tok>, p: int, q: int) -> bool {
    p < q <= toks.len()
}

/// Binary operators of precedence `level`, left-associative.
pub open spec fn p_binary(toks: Seq<Tok>, level: int, p: int) -> Parsed<ExprV>
    decreases toks.len() - p, rank_binary(level),
{
    let l = p_operand(toks, level, p);
    match l.res {
        Err(m) => fail(m, l.pos),
        Ok(x) => if p < l.pos <= toks.len() {
            p_binary_rest(toks, level, x, l.pos)
        } else {
            ok(x, l.pos)
        },
    }
}

/// More operators of precedence `level` after the operand `left`.
pub open spec fn p_binary_rest(toks: Seq<Tok>, level: int, left: ExprV, q: int) -> Parsed<ExprV>
    decreases toks.len() - q, 1int,
{
    match at(toks, q) {
        Some(t) => match binop_at(level, t.kind) {
            Some(op) => {
                let r = p_operand(toks, level, q + 1);
                match r.res {
                    Err(m) => fail(m, r.pos),
                    Ok(y) => {
                        let e = ExprV::BinaryOp(Box::new(left), op, Box::new(y));
                        if q + 1 < r.pos <= toks.len() {
                            p_binary_rest(toks, level, e, r.pos)
                        } else {
                            ok(e, r.pos)
                        }
                    },
                }
            },
            None => ok(left, q),
        },
        None => ok(left, q),
    }
}

/// An expression: a binary expression, optionally assigned (right-associative).
pub open spec fn p_assign(toks: Seq<Tok>, p: int) -> Parsed<ExprV>
    decreases toks.len() - p, 30int,
{
    let l = p_binary(toks, 0, p);
    match l.res {
        Err(m) => fail(m, l.pos),
        Ok(x) => if is_at(toks, l.pos, TokenKind::Assign) && p < l.pos {
            let r = p_assign(toks, l.pos + 1);
            match r.res {
                Err(m) => fail(m, r.pos),
                Ok(y) => ok(ExprV::BinaryOp(Box::new(x), BinOp::Assign, Box::new(y)), r.pos),
            }
        } else {
            ok(x, l.pos)
        },
    }
}

/// Prefix `-` and `!`.
pub open spec fn p_unary(toks: Seq<Tok>, p: int) -> Parsed<ExprV>
    decreases toks.len() - p, 11int,
{
    if is_at(toks, p, TokenKind::Minus) {
        let u = p_unary(toks, p + 1);
        match u.res {
            Err(m) => fail(m, u.pos),
            Ok(x) => ok(ExprV::UnaryOp(UnaryOp::Neg, Box::new(x)), u.pos),
        }
    } else if is_at(toks, p, TokenKind::Not) {
        let u = p_unary(toks, p + 1);
        match u.res {
            Err(m) => fail(m, u.pos),
            Ok(x) => ok(ExprV::UnaryOp(UnaryOp::Not, Box::new(x)), u.pos),
        }
    } else {
        p_primary(toks, p)
    }
}

/// A literal, or a name followed by field accesses and an optional call.
pub open spec fn p_primary(toks: Seq<Tok>, p: int) -> Parsed<ExprV>
    decreases toks.len() - p, 10int,
{
    if is_at(toks, p, TokenKind::Number) {
        ok(number_expr(toks[p]), p + 1)
    } else if is_at(toks, p, TokenKind::StringLiteral) {
        ok(ExprV::StringLiteral(toks[p].text), p + 1)
    } else {
        let n = p_ident(toks, p);
        match n.res {
            Err(m) => fail(m, n.pos),
            Ok(name) => p_postfix(toks, ExprV::Ident(name), n.pos),
        }
    }
}

/// `.field` accesses after `e`, then an optional argument list.
pub open spec fn p_postfix(toks: Seq<Tok>, e: ExprV, q: int) -> Parsed<ExprV>
    decreases toks.len() - q, 9int,
{
    if is_at(toks, q, TokenKind::Dot) {
        let f = p_ident(toks, q + 1);
        match f.res {
            Err(m) => fail(m, f.pos),
            Ok(name) => p_postfix(toks, ExprV::FieldAccess(Box::new(e), name), f.pos),
        }
    } else if is_at(toks, q, TokenKind::LParen) {
        if !is_at(toks, q + 1, TokenKind::RParen) {
            let a = p_assign(toks, q + 1);
            match a.res {
                Err(m) => fail(m, a.pos),
                Ok(x) => if q + 1 < a.pos <= toks.len() {
                    p_args(toks, e, seq![x], a.pos, q)
                } else {
                    ok(e, a.pos)
                },
            }
        } else {
            finish_call(e, Seq::empty(), q + 2, loc_at(toks, q))
        }
    } else {
        ok(e, q)
    }
}

/// The rest of an argument list, `args` read so far.
pub open spec fn p_args(toks: Seq<Tok>, e: ExprV, args: Seq<ExprV>, q: int, lp: int) -> Parsed<ExprV>
    decreases toks.len() - q, 8int,
{
    if is_at(toks, q, TokenKind::Comma) {
        let a = p_assign(toks, q + 1);
        match a.res {
            Err(m) => fail(m, a.pos),
            Ok(x) => if q + 1 < a.pos <= toks.len() {
                p_args(toks, e, args.push(x), a.pos, lp)
            } else {
                ok(e, a.pos)
            },
        }
    } else {
        let x = p_expect(toks, q, TokenKind::RParen);
        match x.res {
            Err(m) => fail(m, x.pos),
            Ok(_) => finish_call(e, args, x.pos, loc_at(toks, lp)),
        }
    }
}

/// The dotted name that a name followed by field accesses spells, as
/// `raylib.init_window`; none for another expression.
pub open spec fn dotted_name(e: ExprV) -> Option<Seq<char>>
    decreases e,
{
    match e {
        ExprV::Ident(n) => Some(n),
        ExprV::FieldAccess(o, field) => match dotted_name(*o) {
            Some(p) => Some(p + seq!['.'] + field),
            None => None,
        },
        _ => None,
    }
}

/// A call of the function that `e` names, by its [`dotted_name`] (so that
/// `m.f(1)` calls `m.f`, as a function of an imported module); an error,
/// located at the call's `(` (`loc`), when `e` spells no name.
pub open spec fn finish_call(e: ExprV, args: Seq<ExprV>, q: int, loc: Seq<char>) -> Parsed<ExprV> {
    match dotted_name(e) {
        Some(name) => ok(ExprV::Call(name, args), q),
        None => fail("Expected identifier for function call"@ + loc, q),
    }
}

/// The statements of a block whose `{` has been read, through its `}`.
pub open spec fn p_block(toks: Seq<Tok>, p: int) -> Parsed<ExprV>
    decreases toks.len() - p, 40int,
{
    p_block_rest(toks, Seq::empty(), p)
}

pub open spec fn p_block_rest(toks: Seq<Tok>, acc: Seq<StmtV>, p: int) -> Parsed<ExprV>
    decreases toks.len() - p, 39int,
{
    if is_at(toks, p, TokenKind::RBrace) {
        ok(ExprV::Block(acc), p + 1)
    } else {
        let s = p_stmt(toks, p);
        match s.res {
            Err(m) => fail(m, s.pos),
            Ok(st) => if p < s.pos <= toks.len() {
                p_block_rest(toks, acc.push(st), s.pos)
            } else {
                ok(ExprV::Block(acc.push(st)), s.pos)
            },
        }
    }
}

/// `= expr ;` after a declared name, making the statement with `make`.
pub open spec fn p_init(toks: Seq<Tok>, q: int) -> Parsed<ExprV>
    decreases toks.len() - q, 37int,
{
    let a = p_expect(toks, q, TokenKind::Assign);
    match a.res {
        Err(m) => fail(m, a.pos),
        Ok(_) => {
            let e = p_assign(toks, a.pos);
            match e.res {
                Err(m) => fail(m, e.pos),
                Ok(x) => {
                    let s = p_expect(toks, e.pos, TokenKind::Semi);
                    match s.res {
                        Err(m) => fail(m, s.pos),
                        Ok(_) => ok(x, s.pos),
                    }
                },
            }
        },
    }
}

/// `: type = expr ;` after a declared name.
pub open spec fn p_typed_init(toks: Seq<Tok>, q: int) -> Parsed<(TypeV, ExprV)>
    decreases toks.len() - q, 37int,
{
    let c = p_expect(toks, q, TokenKind::Colon);
    match c.res {
        Err(m) => fail(m, c.pos),
        Ok(_) => {
            let t = p_type(toks, c.pos);
            match t.res {
                Err(m) => fail(m, t.pos),
                Ok(ty) => {
                    let i = p_init(toks, t.pos);
                    match i.res {
                        Err(m) => fail(m, i.pos),
                        Ok(x) => ok((ty, x), i.pos),
                    }
                },
            }
        },
    }
}

/// `{ block }` after a condition or range.
pub open spec fn p_braced(toks: Seq<Tok>, q: int) -> Parsed<ExprV>
    decreases toks.len() - q, 41int,
{
    let b = p_expect(toks, q, TokenKind::LBrace);
    match b.res {
        Err(m) => fail(m, b.pos),
        Ok(_) => p_block(toks, b.pos),
    }
}

/// A statement.
pub open spec fn p_stmt(toks: Seq<Tok>, p: int) -> Parsed<StmtV>
    decreases toks.len() - p, 38int,
{
    if is_at(toks, p, TokenKind::Let) {
        let mutable = is_at(toks, p + 1, TokenKind::Mut);
        let n = p_ident(
            toks,
            if mutable {
                p + 2
            } else {
                p + 1
            },
        );
        match n.res {
            Err(m) => fail(m, n.pos),
            Ok(name) => if is_at(toks, n.pos, TokenKind::Colon) {
                let ti = p_typed_init(toks, n.pos);
                match ti.res {
                    Err(m) => fail(m, ti.pos),
                    Ok(tx) => ok(StmtV::Let(name, Some(tx.0), tx.1), ti.pos),
                }
            } else {
                let i = p_init(toks, n.pos);
                match i.res {
                    Err(m) => fail(m, i.pos),
                    Ok(x) => ok(
                        StmtV::Let(
                            name,
                            if mutable {
                                Some(TypeV::Prim(PrimType::Int))
                            } else {
                                None
                            },
                            x,
                        ),
                        i.pos,
                    ),
                }
            },
        }
    } else if is_at(toks, p, TokenKind::Const) {
        let n = p_ident(toks, p + 1);
        match n.res {
            Err(m) => fail(m, n.pos),
            Ok(name) => {
                let ti = p_typed_init(toks, n.pos);
                match ti.res {
                    Err(m) => fail(m, ti.pos),
                    Ok(tx) => ok(StmtV::Const(name, Some(tx.0), tx.1), ti.pos),
                }
            },
        }
    } else if is_at(toks, p, TokenKind::Return) {
        if is_at(toks, p + 1, TokenKind::RBrace) || at_end(toks, p + 1) {
            ok(StmtV::Return(None), p + 1)
        } else {
            let e = p_assign(toks, p + 1);
            match e.res {
                Err(m) => fail(m, e.pos),
                Ok(x) => ok(
                    StmtV::Return(Some(Box::new(x))),
                    if is_at(toks, e.pos, TokenKind::Semi) {
                        e.pos + 1
                    } else {
                        e.pos
                    },
                ),
            }
        }
    } else if is_at(toks, p, TokenKind::For) {
        let n = p_ident(toks, p + 1);
        match n.res {
            Err(m) => fail(m, n.pos),
            Ok(name) => {
                let i = p_expect(toks, n.pos, TokenKind::In);
                match i.res {
                    Err(m) => fail(m, i.pos),
                    Ok(_) => {
                        let a = p_assign(toks, i.pos);
                        match a.res {
                            Err(m) => fail(m, a.pos),
                            Ok(start) => if moved(toks, p, a.pos) {
                                let d = p_expect(toks, a.pos, TokenKind::DotDot);
                                match d.res {
                                    Err(m) => fail(m, d.pos),
                                    Ok(_) => {
                                        let b = p_assign(toks, d.pos);
                                        match b.res {
                                            Err(m) => fail(m, b.pos),
                                            Ok(end) => if moved(toks, p, b.pos) {
                                                let body = p_braced(toks, b.pos);
                                                match body.res {
                                                    Err(m) => fail(m, body.pos),
                                                    Ok(bx) => ok(
                                                        StmtV::For(name, Box::new(start), Box::new(end), bx),
                                                        body.pos,
                                                    ),
                                                }
                                            } else {
                                                fail(Seq::empty(), b.pos)
                                            },
                                        }
                                    },
                                }
                            } else {
                                fail(Seq::empty(), a.pos)
                            },
                        }
                    },
                }
            },
        }
    } else if is_at(toks, p, TokenKind::If) {
        let c = p_assign(toks, p + 1);
        match c.res {
            Err(m) => fail(m, c.pos),
            Ok(cond) => if moved(toks, p, c.pos) {
                let t = p_braced(toks, c.pos);
                match t.res {
                    Err(m) => fail(m, t.pos),
                    Ok(then_b) => if is_at(toks, t.pos, TokenKind::Else) && p < t.pos {
                        let e = p_braced(toks, t.pos + 1);
                        match e.res {
                            Err(m) => fail(m, e.pos),
                            Ok(else_b) => ok(StmtV::If(Box::new(cond), then_b, Some(else_b)), e.pos),
                        }
                    } else {
                        ok(StmtV::If(Box::new(cond), then_b, None), t.pos)
                    },
                }
            } else {
                fail(Seq::empty(), c.pos)
            },
        }
    } else if is_at(toks, p, TokenKind::While) {
        let c = p_assign(toks, p + 1);
        match c.res {
            Err(m) => fail(m, c.pos),
            Ok(cond) => if moved(toks, p, c.pos) {
                let b = p_braced(toks, c.pos);
                match b.res {
                    Err(m) => fail(m, b.pos),
                    Ok(body) => ok(StmtV::While(Box::new(cond), body), b.pos),
                }
            } else {
                fail(Seq::empty(), c.pos)
            },
        }
    } else {
        let e = p_assign(toks, p);
        match e.res {
            Err(m) => fail(m, e.pos),
            Ok(x) => ok(
                StmtV::Expr(x),
                if is_at(toks, e.pos, TokenKind::Semi) {
                    e.pos + 1
                } else {
                    e.pos
                },
            ),
        }
    }
}

/// `name: type` pairs separated by commas, up to a token that is no comma.
pub open spec fn p_params(toks: Seq<Tok>, acc: Seq<(Seq<char>, TypeV)>, q: int) -> Parsed<Seq<(Seq<char>, TypeV)>>
    decreases toks.len() - q,
{
    let n = p_ident(toks, q);
    match n.res {
        Err(m) => fail(m, n.pos),
        Ok(name) => {
            let c = p_expect(toks, n.pos, TokenKind::Colon);
            match c.res {
                Err(m) => fail(m, c.pos),
                Ok(_) => {
                    let t = p_type(toks, c.pos);
                    match t.res {
                        Err(m) => fail(m, t.pos),
                        Ok(ty) => {
                            let acc2 = acc.push((name, ty));
                            if is_at(toks, t.pos, TokenKind::Comma) {
                                p_params(toks, acc2, t.pos + 1)
                            } else {
                                ok(acc2, t.pos)
                            }
                        },
                    }
                },
            }
        },
    }
}

/// A function after `fn`: name, parameters, `->` return type, body.
pub open spec fn p_fn(toks: Seq<Tok>, p: int) -> Parsed<ItemV> {
    let n = p_ident(toks, p);
    match n.res {
        Err(m) => fail(m, n.pos),
        Ok(name) => {
            let lp = p_expect(toks, n.pos, TokenKind::LParen);
            match lp.res {
                Err(m) => fail(m, lp.pos),
                Ok(_) => {
                    let ps = if !is_at(toks, lp.pos, TokenKind::RParen) {
                        p_params(toks, Seq::empty(), lp.pos)
                    } else {
                        ok(Seq::empty(), lp.pos)
                    };
                    match ps.res {
                        Err(m) => fail(m, ps.pos),
                        Ok(params) => {
                            let rp = p_expect(toks, ps.pos, TokenKind::RParen);
                            match rp.res {
                                Err(m) => fail(m, rp.pos),
                                Ok(_) => {
                                    let ar = p_expect(toks, rp.pos, TokenKind::Arrow);
                                    match ar.res {
                                        Err(m) => fail(m, ar.pos),
                                        Ok(_) => {
                                            let rt = p_type(toks, ar.pos);
                                            match rt.res {
                                                Err(m) => fail(m, rt.pos),
                                                Ok(ret) => {
                                                    let b = p_braced(toks, rt.pos);
                                                    match b.res {
                                                        Err(m) => fail(m, b.pos),
                                                        Ok(body) => ok(
                                                            ItemV::Fn { name, params, ret, body },
                                                            b.pos,
                                                        ),
                                                    }
                                                },
                                            }
                                        },
                                    }
                                },
                            }
                        },
                    }
                },
            }
        },
    }
}

/// Field declarations up to (not including) the closing `}`.
pub open spec fn p_field_decls(toks: Seq<Tok>, acc: Seq<(Seq<char>, TypeV)>, q: int) -> Parsed<Seq<(Seq<char>, TypeV)>>
    decreases toks.len() - q,
{
    if is_at(toks, q, TokenKind::RBrace) {
        ok(acc, q)
    } else {
        let n = p_ident(toks, q);
        match n.res {
            Err(m) => fail(m, n.pos),
            Ok(name) => {
                let c = p_expect(toks, n.pos, TokenKind::Colon);
                match c.res {
                    Err(m) => fail(m, c.pos),
                    Ok(_) => {
                        let t = p_type(toks, c.pos);
                        match t.res {
                            Err(m) => fail(m, t.pos),
                            Ok(ty) => p_field_decls(
                                toks,
                                acc.push((name, ty)),
                                if is_at(toks, t.pos, TokenKind::Comma) {
                                    t.pos + 1
                                } else {
                                    t.pos
                                },
                            ),
                        }
                    },
                }
            },
        }
    }
}

/// A struct after `struct`: name and braced field declarations.
pub open spec fn p_struct(toks: Seq<Tok>, p: int) -> Parsed<ItemV> {
    let n = p_ident(toks, p);
    match n.res {
        Err(m) => fail(m, n.pos),
        Ok(name) => {
            let lb = p_expect(toks, n.pos, TokenKind::LBrace);
            match lb.res {
                Err(m) => fail(m, lb.pos),
                Ok(_) => {
                    let fs = p_field_decls(toks, Seq::empty(), lb.pos);
                    match fs.res {
                        Err(m) => fail(m, fs.pos),
                        Ok(fields) => ok(ItemV::Struct { name, fields }, fs.pos + 1),
                    }
                },
            }
        },
    }
}

/// An import after `import`: a path string, an optional `as` alias, `;`.
pub open spec fn p_import(toks: Seq<Tok>, p: int) -> Parsed<ItemV> {
    let s = p_string(toks, p);
    match s.res {
        Err(m) => fail(m, s.pos),
        Ok(path) => {
            let al = if is_at(toks, s.pos, TokenKind::As) {
                let a = p_ident(toks, s.pos + 1);
                match a.res {
                    Err(m) => fail(m, a.pos),
                    Ok(x) => ok(Some(x), a.pos),
                }
            } else {
                ok(None, s.pos)
            };
            match al.res {
                Err(m) => fail(m, al.pos),
                Ok(alias) => {
                    let semi = p_expect(toks, al.pos, TokenKind::Semi);
                    match semi.res {
                        Err(m) => fail(m, semi.pos),
                        Ok(_) => ok(ItemV::Import { path, alias }, semi.pos),
                    }
                },
            }
        },
    }
}

/// An item: `fn`, `struct` or `import`.
pub open spec fn p_item(toks: Seq<Tok>, p: int) -> Parsed<ItemV> {
    if is_at(toks, p, TokenKind::Fn) {
        p_fn(toks, p + 1)
    } else if is_at(toks, p, TokenKind::Struct) {
        p_struct(toks, p + 1)
    } else if is_at(toks, p, TokenKind::Import) {
        p_import(toks, p + 1)
    } else {
        fail(
            item_msg(at(toks, p)) + loc_at(toks, p),
            p,
        )
    }
}

/// Items until the end of the tokens (or an `Eof`), after `items`.
pub open spec fn p_program(toks: Seq<Tok>, items: Seq<ItemV>, p: int) -> Parsed<Seq<ItemV>>
    decreases toks.len() - p,
{
    if at_end(toks, p) {
        ok(items, p)
    } else {
        let it = p_item(toks, p);
        match it.res {
            Err(m) => fail(m, it.pos),
            Ok(x) => if p < it.pos <= toks.len() {
                p_program(toks, items.push(x), it.pos)
            } else {
                ok(items.push(x), it.pos)
            },
        }
    }
}


/// The token views of a list of spanned tokens.
pub open spec fn token_views<F: Fn(FloatOp) -> u64>(flt: F, ts: Seq<SpannedToken>) -> Seq<Tok> {
    Seq::new(ts.len(), |k: int| tok_of(flt, ts[k]))
}

/// Whether an executable outcome agrees with a specified one.
pub open spec fn agrees<A: View>(r: Result<A, String>, s: Result<A::V, Seq<char>>) -> bool {
    match r {
        Ok(a) => s == Ok::<A::V, Seq<char>>(a@),
        Err(m) => s == Err::<A::V, Seq<char>>(m@),
    }
}

// ----- operators ----------------------------------------------------------------

/// Every binary operator but `=` is written in source as the symbol its
/// type errors name (`+`, `>=`, `&&`, ...): that symbol reads as one token,
/// and the parser reads that token, at one of its precedence levels, as
/// that same operator.
pub proof fn lemma_operator_tokens(op: BinOp)
    requires
        op != BinOp::Assign,
    ensures
        ({
            let cs = crate::interp::op_symbol(op);
            let r = crate::lexer::lex_next(cs, 0, 0, false);
            &&& r.idx == cs.len()
            &&& exists|level: int| 0 <= level <= 8 && #[trigger] binop_at(level, r.tok.kind) == Some(op)
        }),
{
    reveal_strlit("+");
    reveal_strlit("-");
    reveal_strlit("*");
    reveal_strlit("/");
    reveal_strlit("%");
    reveal_strlit("<");
    reveal_strlit("<=");
    reveal_strlit(">");
    reveal_strlit(">=");
    reveal_strlit("&&");
    reveal_strlit("||");
    reveal_strlit("^");
    reveal_strlit("&");
    reveal_strlit("|");
    reveal_strlit("==");
    reveal_strlit("!=");
    let cs = crate::interp::op_symbol(op);
    let k = crate::lexer::lex_next(cs, 0, 0, false).tok.kind;
    let level: int = match op {
        BinOp::Or => 0,
        BinOp::And => 1,
        BinOp::Xor => 2,
        BinOp::BitOr => 3,
        BinOp::BitAnd => 4,
        BinOp::Eq | BinOp::Ne => 5,
        BinOp::Lt | BinOp::Le | BinOp::Gt | BinOp::Ge => 6,
        BinOp::Add | BinOp::Sub => 7,
        _ => 8,
    };
    assert(binop_at(level, k) == Some(op));
}

/// Each token kind stands for at most one operator, at one level: the
/// parser never reads one operator token two ways.
pub proof fn lemma_operator_levels(level1: int, level2: int, k: TokenKind)
    requires
        0 <= level1 <= 8,
        0 <= level2 <= 8,
        binop_at(level1, k) is Some,
        binop_at(level2, k) is Some,
    ensures
        level1 == level2,
        binop_at(level1, k) == binop_at(level2, k),
{
}

/// Whether a token of kind `k` ends an expression: `;`, `)`, `}`, `,`, the
/// `{` of a block after a condition, the `..` of a range, or the end of
/// input.
pub open spec fn ends_expr(k: TokenKind) -> bool {
    k == TokenKind::Semi || k == TokenKind::RParen || k == TokenKind::RBrace || k == TokenKind::Comma
        || k == TokenKind::LBrace || k == TokenKind::DotDot || k == TokenKind::Eof
}

/// How tightly each binary operator binds, from `||` (loosest) to `*`, `/`
/// and `%` (tightest).
pub open spec fn precedence(op: BinOp) -> int {
    match op {
        BinOp::Or => 0,
        BinOp::And => 1,
        BinOp::Xor => 2,
        BinOp::BitOr => 3,
        BinOp::BitAnd => 4,
        BinOp::Eq | BinOp::Ne => 5,
        BinOp::Lt | BinOp::Le | BinOp::Gt | BinOp::Ge => 6,
        BinOp::Add | BinOp::Sub => 7,
        _ => 8,
    }
}

/// The token that an operator's symbol reads as.
pub open spec fn op_token(op: BinOp) -> TokenKind {
    crate::lexer::lex_next(crate::interp::op_symbol(op), 0, 0, false).tok.kind
}

/// A unary expression that stands between `p` and `q`, before a token that
/// carries no operator of `level` or a tighter one, is the whole operand and
/// the whole binary expression at `level`.
proof fn lemma_unary_is_binary(toks: Seq<Tok>, level: int, p: int, q: int, e: ExprV)
    requires
        0 <= level <= 8,
        0 <= p < q < toks.len(),
        p_unary(toks, p) == ok(e, q),
        forall|l: int| level <= l <= 8 ==> #[trigger] binop_at(l, toks[q].kind) is None,
    ensures
        p_operand(toks, level, p) == ok(e, q),
        p_binary(toks, level, p) == ok(e, q),
    decreases 8 - level,
{
    if level < 8 {
        lemma_unary_is_binary(toks, level + 1, p, q, e);
    }
    assert(binop_at(level, toks[q].kind) is None);
    assert(p_binary_rest(toks, level, e, q) == ok(e, q));
}

/// A binary expression at `top` that ends before a token carrying no
/// operator of a looser level is also the whole binary expression at each
/// of those levels.
proof fn lemma_binary_widens(toks: Seq<Tok>, level: int, top: int, p: int, q: int, e: ExprV)
    requires
        0 <= level <= top <= 8,
        0 <= p < q < toks.len(),
        p_binary(toks, top, p) == ok(e, q),
        forall|l: int| level <= l < top ==> #[trigger] binop_at(l, toks[q].kind) is None,
    ensures
        p_binary(toks, level, p) == ok(e, q),
    decreases top - level,
{
    if level < top {
        lemma_binary_widens(toks, level + 1, top, p, q, e);
        assert(p_operand(toks, level, p) == ok(e, q));
        assert(binop_at(level, toks[q].kind) is None);
        assert(p_binary_rest(toks, level, e, q) == ok(e, q));
    }
}

/// No token that ends an expression carries an operator.
proof fn lemma_end_has_no_operator(k: TokenKind)
    requires
        ends_expr(k),
    ensures
        forall|l: int| 0 <= l <= 8 ==> #[trigger] binop_at(l, k) is None,
{
}

/// A name that no `.` or `(` follows is a whole unary expression.
proof fn lemma_name_is_unary(toks: Seq<Tok>, p: int)
    requires
        0 <= p,
        p + 1 < toks.len(),
        toks[p].kind == TokenKind::Ident,
        toks[p + 1].kind != TokenKind::Dot,
        toks[p + 1].kind != TokenKind::LParen,
    ensures
        p_unary(toks, p) == ok(ExprV::Ident(toks[p].text), p + 1),
{
    let x = ExprV::Ident(toks[p].text);
    assert(p_ident(toks, p) == ok(toks[p].text, p + 1));
    assert(p_postfix(toks, x, p + 1) == ok(x, p + 1));
    assert(p_primary(toks, p) == ok(x, p + 1));
}

/// Two names joined by a binary operator, written as the operator's own
/// symbol, parse as that operator applied to the two names in order, left
/// operand first: `x > y` reads as `x > y`, never as `x >= y` or `y < x`.
pub proof fn lemma_binary_parse(toks: Seq<Tok>, op: BinOp)
    requires
        op != BinOp::Assign,
        toks.len() == 4,
        toks[0].kind == TokenKind::Ident,
        toks[1].kind == op_token(op),
        toks[2].kind == TokenKind::Ident,
        ends_expr(toks[3].kind),
    ensures
        p_assign(toks, 0) == ok(
            ExprV::BinaryOp(Box::new(ExprV::Ident(toks[0].text)), op, Box::new(ExprV::Ident(toks[2].text))),
            3,
        ),
{
    let e = ExprV::BinaryOp(Box::new(ExprV::Ident(toks[0].text)), op, Box::new(ExprV::Ident(toks[2].text)));
    lemma_end_has_no_operator(toks[3].kind);
    lemma_pair_at_level(toks, 0, op);
    lemma_binary_widens(toks, 0, precedence(op), 0, 3, e);
    assert(!is_at(toks, 3, TokenKind::Assign));
}

/// The parser reads an operator's token at that operator's precedence, and
/// at no other level.
proof fn lemma_operator_precedence(op: BinOp)
    requires
        op != BinOp::Assign,
    ensures
        binop_at(precedence(op), op_token(op)) == Some(op),
        forall|l: int| 0 <= l <= 8 && l != precedence(op) ==> #[trigger] binop_at(l, op_token(op)) is None,
{
    lemma_operator_tokens(op);
    let k = op_token(op);
    let level = choose|level: int| 0 <= level <= 8 && #[trigger] binop_at(level, k) == Some(op);
    assert(level == precedence(op));
    assert forall|l: int| 0 <= l <= 8 && l != precedence(op) implies #[trigger] binop_at(l, k) is None by {
        if binop_at(l, k) is Some {
            lemma_operator_levels(l, level, k);
        }
    }
}

/// Two names around an operator at its own level, before a token that
/// carries no operator of that level or a tighter one.
proof fn lemma_pair_at_level(toks: Seq<Tok>, p: int, op: BinOp)
    requires
        op != BinOp::Assign,
        0 <= p,
        p + 3 < toks.len(),
        toks[p].kind == TokenKind::Ident,
        toks[p + 1].kind == op_token(op),
        toks[p + 2].kind == TokenKind::Ident,
        toks[p + 3].kind != TokenKind::Dot,
        toks[p + 3].kind != TokenKind::LParen,
        forall|l: int| precedence(op) <= l <= 8 ==> #[trigger] binop_at(l, toks[p + 3].kind) is None,
    ensures
        p_binary(toks, precedence(op), p) == ok(
            ExprV::BinaryOp(Box::new(ExprV::Ident(toks[p].text)), op, Box::new(ExprV::Ident(toks[p + 2].text))),
            p + 3,
        ),
{
    let level = precedence(op);
    lemma_operator_precedence(op);
    let x = ExprV::Ident(toks[p].text);
    let y = ExprV::Ident(toks[p + 2].text);
    let e = ExprV::BinaryOp(Box::new(x), op, Box::new(y));
    lemma_name_is_unary(toks, p);
    lemma_name_is_unary(toks, p + 2);
    lemma_unary_is_binary(toks, level, p + 2, p + 3, y);
    if level < 8 {
        lemma_unary_is_binary(toks, level + 1, p, p + 1, x);
    }
    assert(p_operand(toks, level, p) == ok(x, p + 1));
    assert(p_binary_rest(toks, level, e, p + 3) == ok(e, p + 3));
    assert(p_binary_rest(toks, level, x, p + 1) == ok(e, p + 3));
}

/// Three names joined by two operators group by precedence: the tighter
/// operator takes its operands first, and operators that bind alike group
/// from the left, so `a + b * c` reads as `a + (b * c)`, and both `a * b + c`
/// and `a - b - c` as `(a ? b) ? c`.
pub proof fn lemma_precedence_parse(toks: Seq<Tok>, op1: BinOp, op2: BinOp)
    requires
        op1 != BinOp::Assign,
        op2 != BinOp::Assign,
        toks.len() == 6,
        toks[0].kind == TokenKind::Ident,
        toks[1].kind == op_token(op1),
        toks[2].kind == TokenKind::Ident,
        toks[3].kind == op_token(op2),
        toks[4].kind == TokenKind::Ident,
        ends_expr(toks[5].kind),
    ensures
        ({
            let a = ExprV::Ident(toks[0].text);
            let b = ExprV::Ident(toks[2].text);
            let c = ExprV::Ident(toks[4].text);
            &&& precedence(op1) < precedence(op2) ==> p_assign(toks, 0) == ok(
                ExprV::BinaryOp(Box::new(a), op1, Box::new(ExprV::BinaryOp(Box::new(b), op2, Box::new(c)))),
                5,
            )
            &&& precedence(op1) >= precedence(op2) ==> p_assign(toks, 0) == ok(
                ExprV::BinaryOp(Box::new(ExprV::BinaryOp(Box::new(a), op1, Box::new(b))), op2, Box::new(c)),
                5,
            )
        }),
{
    let l1 = precedence(op1);
    let l2 = precedence(op2);
    lemma_operator_precedence(op1);
    lemma_operator_precedence(op2);
    lemma_end_has_no_operator(toks[5].kind);
    let a = ExprV::Ident(toks[0].text);
    let b = ExprV::Ident(toks[2].text);
    let c = ExprV::Ident(toks[4].text);
    lemma_name_is_unary(toks, 0);
    lemma_name_is_unary(toks, 2);
    lemma_name_is_unary(toks, 4);
    if l1 < l2 {
        let bc = ExprV::BinaryOp(Box::new(b), op2, Box::new(c));
        let e = ExprV::BinaryOp(Box::new(a), op1, Box::new(bc));
        lemma_pair_at_level(toks, 2, op2);
        lemma_binary_widens(toks, l1 + 1, l2, 2, 5, bc);
        assert(p_operand(toks, l1, 2) == ok(bc, 5));
        lemma_unary_is_binary(toks, l1 + 1, 0, 1, a);
        assert(p_operand(toks, l1, 0) == ok(a, 1));
        assert(p_binary_rest(toks, l1, e, 5) == ok(e, 5));
        assert(p_binary_rest(toks, l1, a, 1) == ok(e, 5));
        assert(p_binary(toks, l1, 0) == ok(e, 5));
        lemma_binary_widens(toks, 0, l1, 0, 5, e);
        assert(!is_at(toks, 5, TokenKind::Assign));
    } else {
        let ab = ExprV::BinaryOp(Box::new(a), op1, Box::new(b));
        let e = ExprV::BinaryOp(Box::new(ab), op2, Box::new(c));
        if l1 == l2 {
            if l1 < 8 {
                lemma_unary_is_binary(toks, l1 + 1, 0, 1, a);
                lemma_unary_is_binary(toks, l1 + 1, 2, 3, b);
                lemma_unary_is_binary(toks, l1 + 1, 4, 5, c);
            }
            assert(p_operand(toks, l1, 0) == ok(a, 1));
            assert(p_operand(toks, l1, 2) == ok(b, 3));
            assert(p_operand(toks, l1, 4) == ok(c, 5));
            assert(p_binary_rest(toks, l1, e, 5) == ok(e, 5));
            assert(p_binary_rest(toks, l1, ab, 3) == ok(e, 5));
            assert(p_binary_rest(toks, l1, a, 1) == ok(e, 5));
            assert(p_binary(toks, l1, 0) == ok(e, 5));
            lemma_binary_widens(toks, 0, l1, 0, 5, e);
        } else {
            lemma_pair_at_level(toks, 0, op1);
            lemma_binary_widens(toks, l2 + 1, l1, 0, 3, ab);
            lemma_unary_is_binary(toks, l2 + 1, 4, 5, c);
            assert(p_operand(toks, l2, 0) == ok(ab, 3));
            assert(p_operand(toks, l2, 4) == ok(c, 5));
            assert(p_binary_rest(toks, l2, e, 5) == ok(e, 5));
            assert(p_binary_rest(toks, l2, ab, 3) == ok(e, 5));
            assert(p_binary(toks, l2, 0) == ok(e, 5));
            lemma_binary_widens(toks, 0, l2, 0, 5, e);
        }
        assert(!is_at(toks, 5, TokenKind::Assign));
    }
}

/// A name after a prefix `-` parses as its negation, and after `!` as its
/// logical negation.
pub proof fn lemma_prefix_parse(toks: Seq<Tok>)
    requires
        toks.len() == 3,
        toks[0].kind == TokenKind::Minus || toks[0].kind == TokenKind::Not,
        toks[1].kind == TokenKind::Ident,
        ends_expr(toks[2].kind),
    ensures
        p_assign(toks, 0) == ok(
            ExprV::UnaryOp(
                if toks[0].kind == TokenKind::Minus {
                    UnaryOp::Neg
                } else {
                    UnaryOp::Not
                },
                Box::new(ExprV::Ident(toks[1].text)),
            ),
            2,
        ),
{
    let x = ExprV::Ident(toks[1].text);
    let e = ExprV::UnaryOp(
        if toks[0].kind == TokenKind::Minus {
            UnaryOp::Neg
        } else {
            UnaryOp::Not
        },
        Box::new(x),
    );
    lemma_end_has_no_operator(toks[2].kind);
    lemma_name_is_unary(toks, 1);
    assert(p_unary(toks, 0) == ok(e, 2));
    lemma_unary_is_binary(toks, 0, 0, 2, e);
    assert(!is_at(toks, 2, TokenKind::Assign));
}

/// A name before a token that ends an expression is a whole expression.
proof fn lemma_name_expr(toks: Seq<Tok>, p: int)
    requires
        0 <= p,
        p + 1 < toks.len(),
        toks[p].kind == TokenKind::Ident,
        ends_expr(toks[p + 1].kind),
    ensures
        p_assign(toks, p) == ok(ExprV::Ident(toks[p].text), p + 1),
{
    lemma_end_has_no_operator(toks[p + 1].kind);
    lemma_name_is_unary(toks, p);
    lemma_unary_is_binary(toks, 0, p, p + 1, ExprV::Ident(toks[p].text));
    assert(!is_at(toks, p + 1, TokenKind::Assign));
}

/// Each form of declaration parses as the statement it writes: `let x = y;`
/// declares `x` with no written type, `let mut x = y;` as an `Int`,
/// `let x: T = y;` and `const x: T = y;` with the type `T` names, and
/// the value is the expression after `=`.
pub proof fn lemma_declaration_parse(toks: Seq<Tok>)
    ensures
        (toks.len() > 5 && toks[0].kind == TokenKind::Let && toks[1].kind == TokenKind::Ident && toks[2].kind
            == TokenKind::Assign && toks[3].kind == TokenKind::Ident && toks[4].kind == TokenKind::Semi)
            ==> p_stmt(toks, 0) == ok(StmtV::Let(toks[1].text, None, ExprV::Ident(toks[3].text)), 5),
        (toks.len() > 6 && toks[0].kind == TokenKind::Let && toks[1].kind == TokenKind::Mut && toks[2].kind
            == TokenKind::Ident && toks[3].kind == TokenKind::Assign && toks[4].kind == TokenKind::Ident
            && toks[5].kind == TokenKind::Semi) ==> p_stmt(toks, 0) == ok(
            StmtV::Let(toks[2].text, Some(TypeV::Prim(PrimType::Int)), ExprV::Ident(toks[4].text)),
            6,
        ),
        (toks.len() > 7 && (toks[0].kind == TokenKind::Let || toks[0].kind == TokenKind::Const) && toks[1].kind
            == TokenKind::Ident && toks[2].kind == TokenKind::Colon && toks[3].kind == TokenKind::Ident
            && toks[4].kind == TokenKind::Assign && toks[5].kind == TokenKind::Ident && toks[6].kind
            == TokenKind::Semi) ==> p_stmt(toks, 0) == ok(
            if toks[0].kind == TokenKind::Let {
                StmtV::Let(toks[1].text, Some(named_type(toks[3].text)), ExprV::Ident(toks[5].text))
            } else {
                StmtV::Const(toks[1].text, Some(named_type(toks[3].text)), ExprV::Ident(toks[5].text))
            },
            7,
        ),
{
    if toks.len() > 5 && toks[0].kind == TokenKind::Let && toks[1].kind == TokenKind::Ident && toks[2].kind
        == TokenKind::Assign && toks[3].kind == TokenKind::Ident && toks[4].kind == TokenKind::Semi {
        lemma_name_expr(toks, 3);
        assert(p_init(toks, 2) == ok(ExprV::Ident(toks[3].text), 5));
    }
    if toks.len() > 6 && toks[0].kind == TokenKind::Let && toks[1].kind == TokenKind::Mut && toks[2].kind
        == TokenKind::Ident && toks[3].kind == TokenKind::Assign && toks[4].kind == TokenKind::Ident
        && toks[5].kind == TokenKind::Semi {
        lemma_name_expr(toks, 4);
        assert(p_init(toks, 3) == ok(ExprV::Ident(toks[4].text), 6));
    }
    if toks.len() > 7 && (toks[0].kind == TokenKind::Let || toks[0].kind == TokenKind::Const) && toks[1].kind
        == TokenKind::Ident && toks[2].kind == TokenKind::Colon && toks[3].kind == TokenKind::Ident
        && toks[4].kind == TokenKind::Assign && toks[5].kind == TokenKind::Ident && toks[6].kind
        == TokenKind::Semi {
        lemma_name_expr(toks, 5);
        assert(p_type(toks, 3) == ok(named_type(toks[3].text), 4));
        assert(p_init(toks, 4) == ok(ExprV::Ident(toks[5].text), 7));
        assert(p_typed_init(toks, 2) == ok((named_type(toks[3].text), ExprV::Ident(toks[5].text)), 7));
    }
}

/// A unary expression before a token that ends an expression is a whole
/// expression.
proof fn lemma_unary_expr(toks: Seq<Tok>, p: int, q: int, e: ExprV)
    requires
        0 <= p < q < toks.len(),
        p_unary(toks, p) == ok(e, q),
        ends_expr(toks[q].kind),
    ensures
        p_assign(toks, p) == ok(e, q),
{
    lemma_end_has_no_operator(toks[q].kind);
    lemma_unary_is_binary(toks, 0, p, q, e);
    assert(!is_at(toks, q, TokenKind::Assign));
}

/// Calls and field reads parse as written: `f(x, y)` calls `f` with its
/// arguments in order, `o.g` reads field `g` of `o`, and `m.g(x)` calls
/// the function that the dotted name `m.g` names.
pub proof fn lemma_postfix_parse(toks: Seq<Tok>)
    ensures
        (toks.len() == 5 && toks[0].kind == TokenKind::Ident && toks[1].kind == TokenKind::LParen
            && toks[2].kind == TokenKind::Ident && toks[3].kind == TokenKind::RParen && ends_expr(toks[4].kind))
            ==> p_assign(toks, 0) == ok(ExprV::Call(toks[0].text, seq![ExprV::Ident(toks[2].text)]), 4),
        (toks.len() == 7 && toks[0].kind == TokenKind::Ident && toks[1].kind == TokenKind::LParen
            && toks[2].kind == TokenKind::Ident && toks[3].kind == TokenKind::Comma && toks[4].kind
            == TokenKind::Ident && toks[5].kind == TokenKind::RParen && ends_expr(toks[6].kind)) ==> p_assign(
            toks,
            0,
        ) == ok(ExprV::Call(toks[0].text, seq![ExprV::Ident(toks[2].text), ExprV::Ident(toks[4].text)]), 6),
        (toks.len() == 4 && toks[0].kind == TokenKind::Ident && toks[1].kind == TokenKind::Dot && toks[2].kind
            == TokenKind::Ident && ends_expr(toks[3].kind)) ==> p_assign(toks, 0) == ok(
            ExprV::FieldAccess(Box::new(ExprV::Ident(toks[0].text)), toks[2].text),
            3,
        ),
        (toks.len() == 7 && toks[0].kind == TokenKind::Ident && toks[1].kind == TokenKind::Dot && toks[2].kind
            == TokenKind::Ident && toks[3].kind == TokenKind::LParen && toks[4].kind == TokenKind::Ident
            && toks[5].kind == TokenKind::RParen && ends_expr(toks[6].kind)) ==> p_assign(toks, 0) == ok(
            ExprV::Call(toks[0].text + seq!['.'] + toks[2].text, seq![ExprV::Ident(toks[4].text)]),
            6,
        ),
{
    if toks.len() == 5 && toks[0].kind == TokenKind::Ident && toks[1].kind == TokenKind::LParen
        && toks[2].kind == TokenKind::Ident && toks[3].kind == TokenKind::RParen && ends_expr(toks[4].kind) {
        let f = ExprV::Ident(toks[0].text);
        let x = ExprV::Ident(toks[2].text);
        let e = ExprV::Call(toks[0].text, seq![x]);
        lemma_name_expr(toks, 2);
        assert(p_args(toks, f, seq![x], 3, 1) == ok(e, 4));
        assert(p_postfix(toks, f, 1) == ok(e, 4));
        assert(p_primary(toks, 0) == ok(e, 4));
        lemma_unary_expr(toks, 0, 4, e);
    }
    if toks.len() == 7 && toks[0].kind == TokenKind::Ident && toks[1].kind == TokenKind::LParen
        && toks[2].kind == TokenKind::Ident && toks[3].kind == TokenKind::Comma && toks[4].kind
        == TokenKind::Ident && toks[5].kind == TokenKind::RParen && ends_expr(toks[6].kind) {
        let f = ExprV::Ident(toks[0].text);
        let x = ExprV::Ident(toks[2].text);
        let y = ExprV::Ident(toks[4].text);
        let e = ExprV::Call(toks[0].text, seq![x, y]);
        lemma_name_expr(toks, 2);
        lemma_name_expr(toks, 4);
        assert(seq![x].push(y) == seq![x, y]);
        assert(p_args(toks, f, seq![x, y], 5, 1) == ok(e, 6));
        assert(p_args(toks, f, seq![x], 3, 1) == ok(e, 6));
        assert(p_postfix(toks, f, 1) == ok(e, 6));
        assert(p_primary(toks, 0) == ok(e, 6));
        lemma_unary_expr(toks, 0, 6, e);
    }
    if toks.len() == 4 && toks[0].kind == TokenKind::Ident && toks[1].kind == TokenKind::Dot && toks[2].kind
        == TokenKind::Ident && ends_expr(toks[3].kind) {
        let o = ExprV::Ident(toks[0].text);
        let e = ExprV::FieldAccess(Box::new(o), toks[2].text);
        assert(p_postfix(toks, e, 3) == ok(e, 3));
        assert(p_postfix(toks, o, 1) == ok(e, 3));
        assert(p_primary(toks, 0) == ok(e, 3));
        lemma_unary_expr(toks, 0, 3, e);
    }
    if toks.len() == 7 && toks[0].kind == TokenKind::Ident && toks[1].kind == TokenKind::Dot && toks[2].kind
        == TokenKind::Ident && toks[3].kind == TokenKind::LParen && toks[4].kind == TokenKind::Ident
        && toks[5].kind == TokenKind::RParen && ends_expr(toks[6].kind) {
        let o = ExprV::Ident(toks[0].text);
        let fa = ExprV::FieldAccess(Box::new(o), toks[2].text);
        let x = ExprV::Ident(toks[4].text);
        let e = ExprV::Call(toks[0].text + seq!['.'] + toks[2].text, seq![x]);
        lemma_name_expr(toks, 4);
        assert(dotted_name(fa) == Some(toks[0].text + seq!['.'] + toks[2].text));
        assert(p_args(toks, fa, seq![x], 5, 3) == ok(e, 6));
        assert(p_postfix(toks, fa, 3) == ok(e, 6));
        assert(p_postfix(toks, o, 1) == ok(e, 6));
        assert(p_primary(toks, 0) == ok(e, 6));
        lemma_unary_expr(toks, 0, 6, e);
    }
}

/// A block holding one name, `{ x }`, parses as a block whose one
/// statement is that name.
proof fn lemma_name_block(toks: Seq<Tok>, p: int)
    requires
        0 <= p,
        p + 2 < toks.len(),
        toks[p].kind == TokenKind::LBrace,
        toks[p + 1].kind == TokenKind::Ident,
        toks[p + 2].kind == TokenKind::RBrace,
    ensures
        p_braced(toks, p) == ok(ExprV::Block(seq![StmtV::Expr(ExprV::Ident(toks[p + 1].text))]), p + 3),
{
    let x = StmtV::Expr(ExprV::Ident(toks[p + 1].text));
    lemma_name_expr(toks, p + 1);
    assert(p_stmt(toks, p + 1) == ok(x, p + 2));
    assert(Seq::<StmtV>::empty().push(x) == seq![x]);
    assert(p_block_rest(toks, seq![x], p + 2) == ok(ExprV::Block(seq![x]), p + 3));
    assert(p_block_rest(toks, Seq::empty(), p + 1) == ok(ExprV::Block(seq![x]), p + 3));
}

/// Control statements parse as written, each part in its place: in
/// `if c { x } else { y }` the first block is what runs when `c` holds and
/// the second what runs otherwise; `if c { x }` has no second block;
/// `while c { x }` repeats its block; `for i in a..b { x }` runs its block
/// for `i` from `a` up to `b`; `return x;` returns `x`.
pub proof fn lemma_control_parse(toks: Seq<Tok>)
    ensures
        (toks.len() == 9 && toks[0].kind == TokenKind::If && toks[1].kind == TokenKind::Ident && toks[2].kind
            == TokenKind::LBrace && toks[3].kind == TokenKind::Ident && toks[4].kind == TokenKind::RBrace
            && toks[5].kind == TokenKind::Else && toks[6].kind == TokenKind::LBrace && toks[7].kind
            == TokenKind::Ident && toks[8].kind == TokenKind::RBrace) ==> p_stmt(toks, 0) == ok(
            StmtV::If(
                Box::new(ExprV::Ident(toks[1].text)),
                ExprV::Block(seq![StmtV::Expr(ExprV::Ident(toks[3].text))]),
                Some(ExprV::Block(seq![StmtV::Expr(ExprV::Ident(toks[7].text))])),
            ),
            9,
        ),
        (toks.len() == 5 && toks[0].kind == TokenKind::If && toks[1].kind == TokenKind::Ident && toks[2].kind
            == TokenKind::LBrace && toks[3].kind == TokenKind::Ident && toks[4].kind == TokenKind::RBrace)
            ==> p_stmt(toks, 0) == ok(
            StmtV::If(
                Box::new(ExprV::Ident(toks[1].text)),
                ExprV::Block(seq![StmtV::Expr(ExprV::Ident(toks[3].text))]),
                None,
            ),
            5,
        ),
        (toks.len() == 5 && toks[0].kind == TokenKind::While && toks[1].kind == TokenKind::Ident && toks[2].kind
            == TokenKind::LBrace && toks[3].kind == TokenKind::Ident && toks[4].kind == TokenKind::RBrace)
            ==> p_stmt(toks, 0) == ok(
            StmtV::While(
                Box::new(ExprV::Ident(toks[1].text)),
                ExprV::Block(seq![StmtV::Expr(ExprV::Ident(toks[3].text))]),
            ),
            5,
        ),
        (toks.len() == 9 && toks[0].kind == TokenKind::For && toks[1].kind == TokenKind::Ident && toks[2].kind
            == TokenKind::In && toks[3].kind == TokenKind::Ident && toks[4].kind == TokenKind::DotDot
            && toks[5].kind == TokenKind::Ident && toks[6].kind == TokenKind::LBrace && toks[7].kind
            == TokenKind::Ident && toks[8].kind == TokenKind::RBrace) ==> p_stmt(toks, 0) == ok(
            StmtV::For(
                toks[1].text,
                Box::new(ExprV::Ident(toks[3].text)),
                Box::new(ExprV::Ident(toks[5].text)),
                ExprV::Block(seq![StmtV::Expr(ExprV::Ident(toks[7].text))]),
            ),
            9,
        ),
        (toks.len() == 3 && toks[0].kind == TokenKind::Return && toks[1].kind == TokenKind::Ident && toks[2].kind
            == TokenKind::Semi) ==> p_stmt(toks, 0) == ok(
            StmtV::Return(Some(Box::new(ExprV::Ident(toks[1].text)))),
            3,
        ),
{
    if toks.len() == 9 && toks[0].kind == TokenKind::If && toks[1].kind == TokenKind::Ident && toks[2].kind
        == TokenKind::LBrace && toks[3].kind == TokenKind::Ident && toks[4].kind == TokenKind::RBrace
        && toks[5].kind == TokenKind::Else && toks[6].kind == TokenKind::LBrace && toks[7].kind
        == TokenKind::Ident && toks[8].kind == TokenKind::RBrace {
        lemma_name_expr(toks, 1);
        lemma_name_block(toks, 2);
        lemma_name_block(toks, 6);
    }
    if toks.len() == 5 && (toks[0].kind == TokenKind::If || toks[0].kind == TokenKind::While) && toks[1].kind
        == TokenKind::Ident && toks[2].kind == TokenKind::LBrace && toks[3].kind == TokenKind::Ident
        && toks[4].kind == TokenKind::RBrace {
        lemma_name_expr(toks, 1);
        lemma_name_block(toks, 2);
    }
    if toks.len() == 9 && toks[0].kind == TokenKind::For && toks[1].kind == TokenKind::Ident && toks[2].kind
        == TokenKind::In && toks[3].kind == TokenKind::Ident && toks[4].kind == TokenKind::DotDot
        && toks[5].kind == TokenKind::Ident && toks[6].kind == TokenKind::LBrace && toks[7].kind
        == TokenKind::Ident && toks[8].kind == TokenKind::RBrace {
        lemma_name_expr(toks, 3);
        lemma_name_expr(toks, 5);
        lemma_name_block(toks, 6);
    }
    if toks.len() == 3 && toks[0].kind == TokenKind::Return && toks[1].kind == TokenKind::Ident && toks[2].kind
        == TokenKind::Semi {
        lemma_name_expr(toks, 1);
    }
}

/// Items parse as written: `fn f(a: A, b: B) -> R { x }` declares `f`
/// with its parameters in order, each with the type written after it, the
/// return type `R` and the block as its body; `struct S { a: A, b: B }`
/// declares its fields in order with their types; `import "p" as m;`
/// imports the path `p` under the name `m`, and `import "p";` under no
/// other name.
pub proof fn lemma_item_parse(toks: Seq<Tok>)
    ensures
        (toks.len() == 16 && toks[0].kind == TokenKind::Fn && toks[1].kind == TokenKind::Ident && toks[2].kind
            == TokenKind::LParen && toks[3].kind == TokenKind::Ident && toks[4].kind == TokenKind::Colon
            && toks[5].kind == TokenKind::Ident && toks[6].kind == TokenKind::Comma && toks[7].kind
            == TokenKind::Ident && toks[8].kind == TokenKind::Colon && toks[9].kind == TokenKind::Ident
            && toks[10].kind == TokenKind::RParen && toks[11].kind == TokenKind::Arrow && toks[12].kind
            == TokenKind::Ident && toks[13].kind == TokenKind::LBrace && toks[14].kind == TokenKind::Ident
            && toks[15].kind == TokenKind::RBrace) ==> p_item(toks, 0) == ok(
            ItemV::Fn {
                name: toks[1].text,
                params: seq![(toks[3].text, named_type(toks[5].text)), (toks[7].text, named_type(toks[9].text))],
                ret: named_type(toks[12].text),
                body: ExprV::Block(seq![StmtV::Expr(ExprV::Ident(toks[14].text))]),
            },
            16,
        ),
        (toks.len() == 11 && toks[0].kind == TokenKind::Struct && toks[1].kind == TokenKind::Ident
            && toks[2].kind == TokenKind::LBrace && toks[3].kind == TokenKind::Ident && toks[4].kind
            == TokenKind::Colon && toks[5].kind == TokenKind::Ident && toks[6].kind == TokenKind::Comma
            && toks[7].kind == TokenKind::Ident && toks[8].kind == TokenKind::Colon && toks[9].kind
            == TokenKind::Ident && toks[10].kind == TokenKind::RBrace) ==> p_item(toks, 0) == ok(
            ItemV::Struct {
                name: toks[1].text,
                fields: seq![(toks[3].text, named_type(toks[5].text)), (toks[7].text, named_type(toks[9].text))],
            },
            11,
        ),
        (toks.len() == 5 && toks[0].kind == TokenKind::Import && toks[1].kind == TokenKind::StringLiteral
            && toks[2].kind == TokenKind::As && toks[3].kind == TokenKind::Ident && toks[4].kind == TokenKind::Semi)
            ==> p_item(toks, 0) == ok(ItemV::Import { path: toks[1].text, alias: Some(toks[3].text) }, 5),
        (toks.len() == 3 && toks[0].kind == TokenKind::Import && toks[1].kind == TokenKind::StringLiteral
            && toks[2].kind == TokenKind::Semi) ==> p_item(toks, 0) == ok(
            ItemV::Import { path: toks[1].text, alias: None },
            3,
        ),
{
    if toks.len() == 16 && toks[0].kind == TokenKind::Fn && toks[1].kind == TokenKind::Ident && toks[2].kind
        == TokenKind::LParen && toks[3].kind == TokenKind::Ident && toks[4].kind == TokenKind::Colon
        && toks[5].kind == TokenKind::Ident && toks[6].kind == TokenKind::Comma && toks[7].kind
        == TokenKind::Ident && toks[8].kind == TokenKind::Colon && toks[9].kind == TokenKind::Ident
        && toks[10].kind == TokenKind::RParen && toks[11].kind == TokenKind::Arrow && toks[12].kind
        == TokenKind::Ident && toks[13].kind == TokenKind::LBrace && toks[14].kind == TokenKind::Ident
        && toks[15].kind == TokenKind::RBrace {
        let pa = (toks[3].text, named_type(toks[5].text));
        let pb = (toks[7].text, named_type(toks[9].text));
        assert(p_type(toks, 5) == ok(named_type(toks[5].text), 6));
        assert(p_type(toks, 9) == ok(named_type(toks[9].text), 10));
        assert(p_type(toks, 12) == ok(named_type(toks[12].text), 13));
        assert(Seq::<(Seq<char>, TypeV)>::empty().push(pa) == seq![pa]);
        assert(seq![pa].push(pb) == seq![pa, pb]);
        assert(p_params(toks, seq![pa], 7) == ok(seq![pa, pb], 10));
        assert(p_params(toks, Seq::empty(), 3) == ok(seq![pa, pb], 10));
        lemma_name_block(toks, 13);
    }
    if toks.len() == 11 && toks[0].kind == TokenKind::Struct && toks[1].kind == TokenKind::Ident
        && toks[2].kind == TokenKind::LBrace && toks[3].kind == TokenKind::Ident && toks[4].kind
        == TokenKind::Colon && toks[5].kind == TokenKind::Ident && toks[6].kind == TokenKind::Comma
        && toks[7].kind == TokenKind::Ident && toks[8].kind == TokenKind::Colon && toks[9].kind
        == TokenKind::Ident && toks[10].kind == TokenKind::RBrace {
        let fa = (toks[3].text, named_type(toks[5].text));
        let fb = (toks[7].text, named_type(toks[9].text));
        assert(p_type(toks, 5) == ok(named_type(toks[5].text), 6));
        assert(p_type(toks, 9) == ok(named_type(toks[9].text), 10));
        assert(Seq::<(Seq<char>, TypeV)>::empty().push(fa) == seq![fa]);
        assert(seq![fa].push(fb) == seq![fa, fb]);
        assert(p_field_decls(toks, seq![fa, fb], 10) == ok(seq![fa, fb], 10));
        assert(p_field_decls(toks, seq![fa], 7) == ok(seq![fa, fb], 10));
        assert(p_field_decls(toks, Seq::empty(), 3) == ok(seq![fa, fb], 10));
    }
}

/// A primitive type is written by the name its `Debug` text gives it
/// (`Int`, `Float64`, `Bool`, ...), and the parser reads that name back as
/// the same primitive type; no two primitive types share a name.
pub proof fn lemma_primitive_names(q: PrimType)
    ensures
        prim_named(crate::type_check::prim_name(q)) == Some(q),
        named_type(crate::type_check::prim_name(q)) == TypeV::Prim(q),
{
    reveal_strlit("Int");
    reveal_strlit("Int8");
    reveal_strlit("Int16");
    reveal_strlit("Int32");
    reveal_strlit("Int64");
    reveal_strlit("UInt");
    reveal_strlit("UInt8");
    reveal_strlit("UInt16");
    reveal_strlit("UInt32");
    reveal_strlit("UInt64");
    reveal_strlit("Float");
    reveal_strlit("Float32");
    reveal_strlit("Float64");
    reveal_strlit("Bool");
    reveal_strlit("Char");
    reveal_strlit("String");
    assert("Int"@.len() == 3);
    assert("Int8"@.len() == 4);
    assert("Int16"@.len() == 5);
    assert("Int32"@.len() == 5);
    assert("Int64"@.len() == 5);
    assert("UInt"@.len() == 4);
    assert("UInt8"@.len() == 5);
    assert("UInt16"@.len() == 6);
    assert("UInt32"@.len() == 6);
    assert("UInt64"@.len() == 6);
    assert("Float"@.len() == 5);
    assert("Float32"@.len() == 7);
    assert("Float64"@.len() == 7);
    assert("Bool"@.len() == 4);
    assert("Char"@.len() == 4);
    assert("String"@.len() == 6);
    let w = crate::type_check::prim_name(q);
    assert(forall|j: int| 0 <= j < w.len() ==> w[j] == crate::type_check::prim_name(q)[j]);
    match q {
        PrimType::Int => {
            assert(w == "Int"@);
            assert(prim_named(w) == Some(PrimType::Int));
        },
        PrimType::Int8 => {
            assert("Int8"@[0] != "UInt"@[0]);
            assert("Int8"@[0] != "Bool"@[0]);
            assert("Int8"@[0] != "Char"@[0]);
            assert(w == "Int8"@);
            assert(prim_named(w) == Some(PrimType::Int8));
        },
        PrimType::Int16 => {
            assert("Int16"@[3] != "Int32"@[3]);
            assert("Int16"@[3] != "Int64"@[3]);
            assert("Int16"@[0] != "UInt8"@[0]);
            assert("Int16"@[0] != "Float"@[0]);
            assert(w == "Int16"@);
            assert(prim_named(w) == Some(PrimType::Int16));
        },
        PrimType::Int32 => {
            assert("Int32"@[3] != "Int16"@[3]);
            assert("Int32"@[3] != "Int64"@[3]);
            assert("Int32"@[0] != "UInt8"@[0]);
            assert("Int32"@[0] != "Float"@[0]);
            assert(w == "Int32"@);
            assert(prim_named(w) == Some(PrimType::Int32));
        },
        PrimType::Int64 => {
            assert("Int64"@[3] != "Int16"@[3]);
            assert("Int64"@[3] != "Int32"@[3]);
            assert("Int64"@[0] != "UInt8"@[0]);
            assert("Int64"@[0] != "Float"@[0]);
            assert(w == "Int64"@);
            assert(prim_named(w) == Some(PrimType::Int64));
        },
        PrimType::UInt => {
            assert("UInt"@[0] != "Int8"@[0]);
            assert("UInt"@[0] != "Bool"@[0]);
            assert("UInt"@[0] != "Char"@[0]);
            assert(w == "UInt"@);
            assert(prim_named(w) == Some(PrimType::UInt));
        },
        PrimType::UInt8 => {
            assert("UInt8"@[0] != "Int16"@[0]);
            assert("UInt8"@[0] != "Int32"@[0]);
            assert("UInt8"@[0] != "Int64"@[0]);
            assert("UInt8"@[0] != "Float"@[0]);
            assert(w == "UInt8"@);
            assert(prim_named(w) == Some(PrimType::UInt8));
        },
        PrimType::UInt16 => {
            assert("UInt16"@[4] != "UInt32"@[4]);
            assert("UInt16"@[4] != "UInt64"@[4]);
            assert("UInt16"@[0] != "String"@[0]);
            assert(w == "UInt16"@);
            assert(prim_named(w) == Some(PrimType::UInt16));
        },
        PrimType::UInt32 => {
            assert("UInt32"@[4] != "UInt16"@[4]);
            assert("UInt32"@[4] != "UInt64"@[4]);
            assert("UInt32"@[0] != "String"@[0]);
            assert(w == "UInt32"@);
            assert(prim_named(w) == Some(PrimType::UInt32));
        },
        PrimType::UInt64 => {
            assert("UInt64"@[4] != "UInt16"@[4]);
            assert("UInt64"@[4] != "UInt32"@[4]);
            assert("UInt64"@[0] != "String"@[0]);
            assert(w == "UInt64"@);
            assert(prim_named(w) == Some(PrimType::UInt64));
        },
        PrimType::Float => {
            assert("Float"@[0] != "Int16"@[0]);
            assert("Float"@[0] != "Int32"@[0]);
            assert("Float"@[0] != "Int64"@[0]);
            assert("Float"@[0] != "UInt8"@[0]);
            assert(w == "Float"@);
            assert(prim_named(w) == Some(PrimType::Float));
        },
        PrimType::Float32 => {
            assert("Float32"@[5] != "Float64"@[5]);
            assert(w == "Float32"@);
            assert(prim_named(w) == Some(PrimType::Float32));
        },
        PrimType::Float64 => {
            assert("Float64"@[5] != "Float32"@[5]);
            assert(w == "Float64"@);
            assert(prim_named(w) == Some(PrimType::Float64));
        },
        PrimType::Bool => {
            assert("Bool"@[0] != "Int8"@[0]);
            assert("Bool"@[0] != "UInt"@[0]);
            assert("Bool"@[0] != "Char"@[0]);
            assert(w == "Bool"@);
            assert(prim_named(w) == Some(PrimType::Bool));
        },
        PrimType::Char => {
            assert("Char"@[0] != "Int8"@[0]);
            assert("Char"@[0] != "UInt"@[0]);
            assert("Char"@[0] != "Bool"@[0]);
            assert(w == "Char"@);
            assert(prim_named(w) == Some(PrimType::Char));
        },
        PrimType::String => {
            assert("String"@[0] != "UInt16"@[0]);
            assert("String"@[0] != "UInt32"@[0]);
            assert("String"@[0] != "UInt64"@[0]);
            assert(w == "String"@);
            assert(prim_named(w) == Some(PrimType::String));
        },
    }
}

// ----- progress ---------------------------------------------------------------

/// What every parsing routine started at `p` keeps when it succeeds: it
/// has read at least one token and stopped within the tokens.
pub open spec fn advanced<T>(toks: Seq<Tok>, p: int, r: Parsed<T>) -> bool {
    r.res is Ok ==> p < r.pos <= toks.len()
}

/// A type that is read has taken at least one token.
pub proof fn lemma_type_progress(toks: Seq<Tok>, p: int)
    ensures
        advanced(toks, p, p_type(toks, p)),
{
}

/// An expression that is read has taken at least one token.
pub proof fn lemma_assign_progress(toks: Seq<Tok>, p: int)
    ensures
        advanced(toks, p, p_assign(toks, p)),
    decreases toks.len() - p, 30int,
{
    lemma_binary_progress(toks, 0, p);
    let l = p_binary(toks, 0, p);
    if l.res is Ok && is_at(toks, l.pos, TokenKind::Assign) && p < l.pos {
        lemma_assign_progress(toks, l.pos + 1);
    }
}

/// [`lemma_assign_progress`] for the operators of one precedence level.
pub proof fn lemma_binary_progress(toks: Seq<Tok>, level: int, p: int)
    ensures
        advanced(toks, p, p_binary(toks, level, p)),
    decreases toks.len() - p, rank_binary(level),
{
    lemma_operand_progress(toks, level, p);
    let l = p_operand(toks, level, p);
    if l.res is Ok && p < l.pos <= toks.len() {
        lemma_binary_rest_progress(toks, level, l.res->Ok_0, l.pos);
    }
}

/// More operators after an operand never move the parser back.
pub proof fn lemma_binary_rest_progress(toks: Seq<Tok>, level: int, left: ExprV, q: int)
    requires
        q <= toks.len(),
    ensures
        p_binary_rest(toks, level, left, q).res is Ok ==> q <= p_binary_rest(toks, level, left, q).pos
            <= toks.len(),
    decreases toks.len() - q, 1int,
{
    match at(toks, q) {
        Some(t) => match binop_at(level, t.kind) {
            Some(op) => {
                lemma_operand_progress(toks, level, q + 1);
                let r = p_operand(toks, level, q + 1);
                if r.res is Ok && q + 1 < r.pos <= toks.len() {
                    let e = ExprV::BinaryOp(Box::new(left), op, Box::new(r.res->Ok_0));
                    lemma_binary_rest_progress(toks, level, e, r.pos);
                }
            },
            None => {},
        },
        None => {},
    }
}

/// [`lemma_assign_progress`] for an operand.
pub proof fn lemma_operand_progress(toks: Seq<Tok>, level: int, p: int)
    ensures
        advanced(toks, p, p_operand(toks, level, p)),
    decreases toks.len() - p, rank_operand(level),
{
    if 0 <= level < 8 {
        lemma_binary_progress(toks, level + 1, p);
    } else {
        lemma_unary_progress(toks, p);
    }
}

/// [`lemma_assign_progress`] for prefix operators.
pub proof fn lemma_unary_progress(toks: Seq<Tok>, p: int)
    ensures
        advanced(toks, p, p_unary(toks, p)),
    decreases toks.len() - p, 11int,
{
    if is_at(toks, p, TokenKind::Minus) || is_at(toks, p, TokenKind::Not) {
        lemma_unary_progress(toks, p + 1);
    } else {
        lemma_primary_progress(toks, p);
    }
}

/// [`lemma_assign_progress`] for a primary expression.
pub proof fn lemma_primary_progress(toks: Seq<Tok>, p: int)
    ensures
        advanced(toks, p, p_primary(toks, p)),
    decreases toks.len() - p, 10int,
{
    if !is_at(toks, p, TokenKind::Number) && !is_at(toks, p, TokenKind::StringLiteral) {
        let n = p_ident(toks, p);
        if n.res is Ok {
            lemma_postfix_progress(toks, ExprV::Ident(n.res->Ok_0), n.pos);
        }
    }
}

/// Field accesses and a call after an expression never move the parser
/// back.
pub proof fn lemma_postfix_progress(toks: Seq<Tok>, e: ExprV, q: int)
    requires
        q <= toks.len(),
    ensures
        p_postfix(toks, e, q).res is Ok ==> q <= p_postfix(toks, e, q).pos <= toks.len(),
    decreases toks.len() - q, 9int,
{
    if is_at(toks, q, TokenKind::Dot) {
        let f = p_ident(toks, q + 1);
        if f.res is Ok {
            lemma_postfix_progress(toks, ExprV::FieldAccess(Box::new(e), f.res->Ok_0), f.pos);
        }
    } else if is_at(toks, q, TokenKind::LParen) {
        if !is_at(toks, q + 1, TokenKind::RParen) {
            lemma_assign_progress(toks, q + 1);
            let a = p_assign(toks, q + 1);
            if a.res is Ok && q + 1 < a.pos <= toks.len() {
                lemma_args_progress(toks, e, seq![a.res->Ok_0], a.pos, q);
            }
        }
    }
}

/// [`lemma_assign_progress`] for the rest of an argument list.
pub proof fn lemma_args_progress(toks: Seq<Tok>, e: ExprV, args: Seq<ExprV>, q: int, lp: int)
    ensures
        advanced(toks, q, p_args(toks, e, args, q, lp)),
    decreases toks.len() - q, 8int,
{
    if is_at(toks, q, TokenKind::Comma) {
        lemma_assign_progress(toks, q + 1);
        let a = p_assign(toks, q + 1);
        if a.res is Ok && q + 1 < a.pos <= toks.len() {
            lemma_args_progress(toks, e, args.push(a.res->Ok_0), a.pos, lp);
        }
    }
}

/// A block that is read has taken at least its closing brace.
pub proof fn lemma_block_progress(toks: Seq<Tok>, p: int)
    ensures
        advanced(toks, p, p_block(toks, p)),
    decreases toks.len() - p, 40int,
{
    lemma_block_rest_progress(toks, Seq::empty(), p);
}

/// [`lemma_block_progress`] after some statements.
pub proof fn lemma_block_rest_progress(toks: Seq<Tok>, acc: Seq<StmtV>, p: int)
    ensures
        advanced(toks, p, p_block_rest(toks, acc, p)),
    decreases toks.len() - p, 39int,
{
    if !is_at(toks, p, TokenKind::RBrace) {
        lemma_stmt_progress(toks, p);
        let s = p_stmt(toks, p);
        if s.res is Ok && p < s.pos <= toks.len() {
            lemma_block_rest_progress(toks, acc.push(s.res->Ok_0), s.pos);
        }
    }
}

/// An initialiser `= expr ;` that is read has taken at least two tokens.
pub proof fn lemma_init_progress(toks: Seq<Tok>, q: int)
    ensures
        advanced(toks, q, p_init(toks, q)),
    decreases toks.len() - q, 37int,
{
    let a = p_expect(toks, q, TokenKind::Assign);
    if a.res is Ok {
        lemma_assign_progress(toks, a.pos);
    }
}

/// [`lemma_init_progress`] with a declared type.
pub proof fn lemma_typed_init_progress(toks: Seq<Tok>, q: int)
    ensures
        advanced(toks, q, p_typed_init(toks, q)),
    decreases toks.len() - q, 37int,
{
    let c = p_expect(toks, q, TokenKind::Colon);
    if c.res is Ok {
        lemma_type_progress(toks, c.pos);
        let t = p_type(toks, c.pos);
        if t.res is Ok {
            lemma_init_progress(toks, t.pos);
        }
    }
}

/// [`lemma_block_progress`] with its opening brace.
pub proof fn lemma_braced_progress(toks: Seq<Tok>, q: int)
    ensures
        advanced(toks, q, p_braced(toks, q)),
    decreases toks.len() - q, 41int,
{
    let b = p_expect(toks, q, TokenKind::LBrace);
    if b.res is Ok {
        lemma_block_progress(toks, b.pos);
    }
}

/// A statement that is read has taken at least one token.
pub proof fn lemma_stmt_progress(toks: Seq<Tok>, p: int)
    ensures
        advanced(toks, p, p_stmt(toks, p)),
    decreases toks.len() - p, 38int,
{
    if is_at(toks, p, TokenKind::Let) {
        let mutable = is_at(toks, p + 1, TokenKind::Mut);
        let n = p_ident(toks, if mutable { p + 2 } else { p + 1 });
        if n.res is Ok {
            lemma_typed_init_progress(toks, n.pos);
            lemma_init_progress(toks, n.pos);
        }
    } else if is_at(toks, p, TokenKind::Const) {
        let n = p_ident(toks, p + 1);
        if n.res is Ok {
            lemma_typed_init_progress(toks, n.pos);
        }
    } else if is_at(toks, p, TokenKind::Return) {
        lemma_assign_progress(toks, p + 1);
    } else if is_at(toks, p, TokenKind::For) {
        let n = p_ident(toks, p + 1);
        if n.res is Ok {
            let i = p_expect(toks, n.pos, TokenKind::In);
            if i.res is Ok {
                lemma_assign_progress(toks, i.pos);
                let a = p_assign(toks, i.pos);
                if a.res is Ok && moved(toks, p, a.pos) {
                    let d = p_expect(toks, a.pos, TokenKind::DotDot);
                    if d.res is Ok {
                        lemma_assign_progress(toks, d.pos);
                        let b = p_assign(toks, d.pos);
                        if b.res is Ok && moved(toks, p, b.pos) {
                            lemma_braced_progress(toks, b.pos);
                        }
                    }
                }
            }
        }
    } else if is_at(toks, p, TokenKind::If) {
        lemma_assign_progress(toks, p + 1);
        let c = p_assign(toks, p + 1);
        if c.res is Ok && moved(toks, p, c.pos) {
            lemma_braced_progress(toks, c.pos);
            let t = p_braced(toks, c.pos);
            if t.res is Ok && is_at(toks, t.pos, TokenKind::Else) && p < t.pos {
                lemma_braced_progress(toks, t.pos + 1);
            }
        }
    } else if is_at(toks, p, TokenKind::While) {
        lemma_assign_progress(toks, p + 1);
        let c = p_assign(toks, p + 1);
        if c.res is Ok && moved(toks, p, c.pos) {
            lemma_braced_progress(toks, c.pos);
        }
    } else {
        lemma_assign_progress(toks, p);
    }
}

/// Parameters that are read have taken at least one token.
pub proof fn lemma_params_progress(toks: Seq<Tok>, acc: Seq<(Seq<char>, TypeV)>, q: int)
    ensures
        advanced(toks, q, p_params(toks, acc, q)),
    decreases toks.len() - q,
{
    let n = p_ident(toks, q);
    if n.res is Ok {
        let c = p_expect(toks, n.pos, TokenKind::Colon);
        if c.res is Ok {
            lemma_type_progress(toks, c.pos);
            let t = p_type(toks, c.pos);
            if t.res is Ok && is_at(toks, t.pos, TokenKind::Comma) {
                lemma_params_progress(toks, acc.push((n.res->Ok_0, t.res->Ok_0)), t.pos + 1);
            }
        }
    }
}

/// Field declarations never move the parser back, and stop at a `}`.
pub proof fn lemma_field_decls_progress(toks: Seq<Tok>, acc: Seq<(Seq<char>, TypeV)>, q: int)
    ensures
        p_field_decls(toks, acc, q).res is Ok ==> q <= p_field_decls(toks, acc, q).pos < toks.len()
            && is_at(toks, p_field_decls(toks, acc, q).pos, TokenKind::RBrace),
    decreases toks.len() - q,
{
    if !is_at(toks, q, TokenKind::RBrace) {
        let n = p_ident(toks, q);
        if n.res is Ok {
            let c = p_expect(toks, n.pos, TokenKind::Colon);
            if c.res is Ok {
                lemma_type_progress(toks, c.pos);
                let t = p_type(toks, c.pos);
                if t.res is Ok {
                    let next = if is_at(toks, t.pos, TokenKind::Comma) {
                        t.pos + 1
                    } else {
                        t.pos
                    };
                    lemma_field_decls_progress(toks, acc.push((n.res->Ok_0, t.res->Ok_0)), next);
                }
            }
        }
    }
}

/// An item that is read has taken at least one token.
pub proof fn lemma_item_progress(toks: Seq<Tok>, p: int)
    ensures
        advanced(toks, p, p_item(toks, p)),
{
    if is_at(toks, p, TokenKind::Fn) {
        let q = p + 1;
        let n = p_ident(toks, q);
        if n.res is Ok {
            let lp = p_expect(toks, n.pos, TokenKind::LParen);
            if lp.res is Ok {
                lemma_params_progress(toks, Seq::empty(), lp.pos);
                let ps = if !is_at(toks, lp.pos, TokenKind::RParen) {
                    p_params(toks, Seq::empty(), lp.pos)
                } else {
                    ok(Seq::empty(), lp.pos)
                };
                if ps.res is Ok {
                    let rp = p_expect(toks, ps.pos, TokenKind::RParen);
                    if rp.res is Ok {
                        let ar = p_expect(toks, rp.pos, TokenKind::Arrow);
                        if ar.res is Ok {
                            lemma_type_progress(toks, ar.pos);
                            let rt = p_type(toks, ar.pos);
                            if rt.res is Ok {
                                lemma_braced_progress(toks, rt.pos);
                            }
                        }
                    }
                }
            }
        }
    } else if is_at(toks, p, TokenKind::Struct) {
        let n = p_ident(toks, p + 1);
        if n.res is Ok {
            let lb = p_expect(toks, n.pos, TokenKind::LBrace);
            if lb.res is Ok {
                lemma_field_decls_progress(toks, Seq::empty(), lb.pos);
            }
        }
    }
}

/// Every guard of the specification on a position another routine
/// returned holds: a successful routine has moved the parser forward,
/// within the tokens. So a program that parses has been read up to the end
/// of the tokens or to an `Eof`.
pub proof fn lemma_program_reaches_end(toks: Seq<Tok>, items: Seq<ItemV>, p: int)
    ensures
        p_program(toks, items, p).res is Ok ==> at_end(toks, p_program(toks, items, p).pos),
    decreases toks.len() - p,
{
    if !at_end(toks, p) {
        lemma_item_progress(toks, p);
        let it = p_item(toks, p);
        if it.res is Ok {
            lemma_program_reaches_end(toks, items.push(it.res->Ok_0), it.pos);
        }
    }
}

/// Where a token starts, as an error message tells it.
fn location_text(t: &SpannedToken) -> (s: String)
    ensures
        s@ == " at line "@ + dec_text(t.line as nat) + ", column "@ + dec_text(t.column as nat),
{
    let mut s = text(" at line ");
    let l = usize_text(t.line);
    push_text(&mut s, l.as_str());
    push_text(&mut s, ", column ");
    let c = usize_text(t.column);
    push_text(&mut s, c.as_str());
    s
}

/// Values of [`two_pow`] that the number rules use.
proof fn lemma_two_pow_values()
    ensures
        two_pow(11) == 0x800,
        two_pow(12) == 0x1000,
        two_pow(52) == 0x10_0000_0000_0000,
        two_pow(53) == 0x20_0000_0000_0000,
        two_pow(54) == 0x40_0000_0000_0000,
{
    reveal_with_fuel(two_pow, 55);
}

/// [`two_pow`] grows with its exponent.
proof fn lemma_two_pow_mono(a: nat, b: nat)
    requires
        a <= b,
    ensures
        two_pow(a) <= two_pow(b),
    decreases b,
{
    if a < b {
        lemma_two_pow_mono(a, (b - 1) as nat);
    }
}

/// 2 to the `e`, for `e` up to 53.
fn two_pow_exec(e: u64) -> (p: u128)
    requires
        e <= 53,
    ensures
        p == two_pow(e as nat),
{
    let mut p: u128 = 1;
    let mut i: u64 = 0;
    while i < e
        invariant
            i <= e <= 53,
            p == two_pow(i as nat),
        decreases e - i,
    {
        proof {
            lemma_two_pow_mono(i as nat, 52);
            lemma_two_pow_values();
        }
        p = p * 2;
        i += 1;
    }
    p
}

/// The [`literal_int`] of a float's bit pattern.
fn literal_int_exec(b: u64) -> (r: Option<i64>)
    ensures
        match r {
            Some(v) => literal_int(b) == Some(v as int),
            None => literal_int(b) is None,
        },
{
    let neg = b >= 0x8000_0000_0000_0000;
    let ex = (b / 0x10_0000_0000_0000) % 2048;
    let man = b % 0x10_0000_0000_0000;
    let m: u128 = 0x10_0000_0000_0000u128 + man as u128;
    proof {
        lemma_two_pow_values();
    }
    if ex == 2047 {
        return None;
    }
    if ex == 0 {
        if man == 0 {
            return Some(0);
        }
        return None;
    }
    let mag: u128;
    if ex >= 1075 {
        let sh = ex - 1075;
        if sh >= 12 {
            proof {
                lemma_two_pow_mono(12, sh as nat);
                assert(m * two_pow(sh as nat) >= 0x10_0000_0000_0000 * 0x1000) by (nonlinear_arith)
                    requires
                        m >= 0x10_0000_0000_0000,
                        two_pow(sh as nat) >= 0x1000,
                ;
            }
            return None;
        }
        let p = two_pow_exec(sh);
        proof {
            lemma_two_pow_mono(sh as nat, 11);
            assert(m * p <= 0x20_0000_0000_0000 * 0x800) by (nonlinear_arith)
                requires
                    m <= 0x20_0000_0000_0000,
                    p <= 0x800,
            ;
        }
        mag = m * p;
    } else {
        let sh = 1075 - ex;
        if sh > 53 {
            proof {
                lemma_two_pow_mono(54, sh as nat);
                vstd::arithmetic::div_mod::lemma_small_mod(m as nat, two_pow(sh as nat));
            }
            return None;
        }
        let d = two_pow_exec(sh);
        proof {
            lemma_two_pow_mono(1, sh as nat);
            reveal_with_fuel(two_pow, 2);
        }
        if m % d != 0 {
            return None;
        }
        mag = m / d;
    }
    if mag > 0x8000_0000_0000_0000 {
        return None;
    }
    if neg {
        if mag == 0x8000_0000_0000_0000 {
            Some(i64::MIN)
        } else {
            Some(-(mag as i64))
        }
    } else if mag == 0x8000_0000_0000_0000 {
        Some(i64::MAX)
    } else {
        Some(mag as i64)
    }
}

/// What `Debug` prints for the float with bit pattern `b`, from the float
/// function.
fn float_text_exec<F: Fn(FloatOp) -> u64>(b: u64, floats: &F) -> (s: String)
    requires
        floats_ok(*floats),
    ensures
        s@ == float_text(*floats, b),
{
    let n = ask(floats, FloatOp::TextLen(b));
    let ghost full = float_text(*floats, b);
    let mut s = String::new();
    let mut i: u64 = 0;
    while i < n
        invariant
            i <= n,
            floats_ok(*floats),
            n == float_of(*floats, FloatOpV::TextLen(b)),
            full == float_text(*floats, b),
            full.len() == n,
            s@ == full.take(i as int),
        decreases n - i,
    {
        let c = ask(floats, FloatOp::TextChar(b, i));
        let ch = if c < 128 {
            (c as u8) as char
        } else {
            '?'
        };
        assert(ch == full[i as int]);
        push_char(&mut s, ch);
        assert(full.take(i + 1) =~= full.take(i as int).push(ch));
        i += 1;
    }
    assert(full.take(n as int) =~= full);
    s
}

/// The expression a number literal with text `lexeme` stands for.
fn number_literal<F: Fn(FloatOp) -> u64>(lexeme: &String, floats: &F) -> (e: Expr)
    requires
        floats_ok(*floats),
    ensures
        e@ == match literal_int(float_of(*floats, FloatOpV::Parse(lexeme@))) {
            Some(v) => ExprV::IntLiteral(v as i64),
            None => ExprV::FloatLiteral(lexeme@),
        },
{
    let b = ask(floats, FloatOp::Parse(lexeme.clone()));
    match literal_int_exec(b) {
        Some(v) => Expr::IntLiteral(v),
        None => Expr::FloatLiteral(lexeme.clone()),
    }
}

/// The `Debug` text of a token.
fn token_debug_text<F: Fn(FloatOp) -> u64>(t: &SpannedToken, floats: &F) -> (s: String)
    requires
        floats_ok(*floats),
    ensures
        s@ == token_debug(tok_of(*floats, *t)),
{
    let k = t.token.kind();
    let mut s = kind_name_text(k);
    match t.token.text() {
        Some(x) => {
            push_char(&mut s, '(');
            let inner = if k == TokenKind::Number {
                let b = ask(floats, FloatOp::Parse(x.clone()));
                float_text_exec(b, floats)
            } else {
                debug_quoted(x.as_str())
            };
            push_text(&mut s, inner.as_str());
            push_char(&mut s, ')');
            assert(s@ =~= token_debug(tok_of(*floats, *t)));
        },
        None => {},
    }
    s
}

/// The message for a missing token of kind `k`.
fn expected_message<F: Fn(FloatOp) -> u64>(k: TokenKind, got: Option<&SpannedToken>, floats: &F) -> (m: String)
    requires
        floats_ok(*floats),
    ensures
        m@ == expected_msg(
            k,
            match got {
                Some(t) => Some(tok_of(*floats, *t)),
                None => None,
            },
        ),
{
    let mut m = text("Expected ");
    let name = kind_name_text(k);
    push_text(&mut m, name.as_str());
    push_text(&mut m, ", got ");
    match got {
        Some(t) => {
            let d = token_debug_text(t, floats);
            push_text(&mut m, d.as_str());
        },
        None => {
            push_text(&mut m, "EOF");
        },
    }
    m
}

/// The message for a position where no item starts.
fn item_message<F: Fn(FloatOp) -> u64>(got: Option<&SpannedToken>, floats: &F) -> (m: String)
    requires
        floats_ok(*floats),
    ensures
        m@ == item_msg(
            match got {
                Some(t) => Some(tok_of(*floats, *t)),
                None => None,
            },
        ),
{
    let mut m = text("Expected item (fn, struct, import), got ");
    match got {
        Some(t) => {
            push_text(&mut m, "Some(");
            let d = token_debug_text(t, floats);
            push_text(&mut m, d.as_str());
            push_text(&mut m, ")");
        },
        None => {
            push_text(&mut m, "None");
        },
    }
    m
}

/// The [`dotted_name`] of an expression.
fn dotted_name_of(e: &Expr) -> (r: Option<String>)
    ensures
        match r {
            Some(n) => dotted_name(e@) == Some(n@),
            None => dotted_name(e@) is None,
        },
    decreases e,
{
    match e {
        Expr::Ident(n) => Some(n.clone()),
        Expr::FieldAccess(o, field) => match dotted_name_of(o) {
            Some(p) => {
                let mut s = p;
                push_char(&mut s, '.');
                push_text(&mut s, field.as_str());
                Some(s)
            },
            None => None,
        },
        _ => None,
    }
}

/// A recursive-descent parser over a token sequence.
pub struct Parser {
    tokens: Vec<SpannedToken>,
    pos: usize,
}

/// The type a name denotes: a primitive type or a struct.
fn type_named(name: String) -> (t: Type)
    ensures
        t@ == named_type(name@),
{
    if name == text("Int") {
        Type::Prim(PrimType::Int)
    } else if name == text("Int8") {
        Type::Prim(PrimType::Int8)
    } else if name == text("Int16") {
        Type::Prim(PrimType::Int16)
    } else if name == text("Int32") {
        Type::Prim(PrimType::Int32)
    } else if name == text("Int64") {
        Type::Prim(PrimType::Int64)
    } else if name == text("UInt") {
        Type::Prim(PrimType::UInt)
    } else if name == text("UInt8") {
        Type::Prim(PrimType::UInt8)
    } else if name == text("UInt16") {
        Type::Prim(PrimType::UInt16)
    } else if name == text("UInt32") {
        Type::Prim(PrimType::UInt32)
    } else if name == text("UInt64") {
        Type::Prim(PrimType::UInt64)
    } else if name == text("Float") {
        Type::Prim(PrimType::Float)
    } else if name == text("Float32") {
        Type::Prim(PrimType::Float32)
    } else if name == text("Float64") {
        Type::Prim(PrimType::Float64)
    } else if name == text("Bool") {
        Type::Prim(PrimType::Bool)
    } else if name == text("Char") {
        Type::Prim(PrimType::Char)
    } else if name == text("String") {
        Type::Prim(PrimType::String)
    } else {
        Type::Struct(name)
    }
}

impl Parser {
    /// The tokens being parsed.
    pub closed spec fn source(&self) -> Seq<SpannedToken> {
        self.tokens@
    }

    /// The tokens being parsed as the parser reads them, numbers read by
    /// the float function `flt`.
    pub open spec fn toks<F: Fn(FloatOp) -> u64>(&self, flt: F) -> Seq<Tok> {
        token_views(flt, self.source())
    }

    /// The parser's position in its tokens.
    pub closed spec fn position(&self) -> int {
        self.pos as int
    }

    /// The parser's invariant: the position is at most one past the tokens,
    /// and one past the tokens is a representable position.
    pub closed spec fn wf(&self) -> bool {
        self.tokens.len() < usize::MAX && self.pos <= self.tokens.len() + 1
    }

    spec fn ready(&self) -> bool {
        self.wf() && self.pos <= self.tokens.len()
    }

    /// `after` is this parser after a routine specified by `s`, and a
    /// routine that succeeded has read at least one token.
    spec fn stepped<T>(&self, after: &Parser, s: Parsed<T>) -> bool {
        &&& after.tokens == self.tokens
        &&& after.pos == s.pos
        &&& after.wf()
        &&& s.res is Ok ==> self.pos < after.pos <= after.tokens.len()
    }

    /// A parser at the start of `tokens`.
    pub fn new(tokens: Vec<SpannedToken>) -> (p: Self)
        requires
            tokens.len() < usize::MAX,
        ensures
            p.wf(),
            p.source() == tokens@,
            p.position() == 0,
    {
        Self { tokens, pos: 0 }
    }

    fn peek_token<F: Fn(FloatOp) -> u64>(&self, k: TokenKind, floats: &F) -> (r: bool)
        ensures
            r == is_at(self.toks(*floats), self.pos as int, k),
    {
        self.pos < self.tokens.len() && self.tokens[self.pos].token.kind() == k
    }

    fn at_end<F: Fn(FloatOp) -> u64>(&self, floats: &F) -> (r: bool)
        ensures
            r == at_end(self.toks(*floats), self.pos as int),
    {
        !(self.pos < self.tokens.len()) || self.tokens[self.pos].token.kind() == TokenKind::Eof
    }

    fn peek<F: Fn(FloatOp) -> u64>(&self, floats: &F) -> (r: Option<&SpannedToken>)
        ensures
            match r {
                Some(t) => self.pos < self.tokens.len() && tok_of(*floats, *t) == self.toks(*floats)[self.pos as int],
                None => self.pos >= self.tokens.len(),
            },
    {
        if self.pos < self.tokens.len() {
            Some(&self.tokens[self.pos])
        } else {
            None
        }
    }

    fn advance<F: Fn(FloatOp) -> u64>(&mut self, floats: &F) -> (r: Option<SpannedToken>)
        requires
            floats_ok(*floats),
            old(self).ready(),
        ensures
            final(self).tokens == old(self).tokens,
            final(self).pos == old(self).pos + 1,
            final(self).wf(),
            match r {
                Some(t) => old(self).pos < old(self).tokens.len() && tok_of(*floats, t) == old(self).toks(*floats)[old(self).pos as int],
                None => old(self).pos >= old(self).tokens.len(),
            },
    {
        let t = if self.pos < self.tokens.len() {
            Some(self.tokens[self.pos].clone())
        } else {
            None
        };
        self.pos += 1;
        t
    }

    fn expect<F: Fn(FloatOp) -> u64>(&mut self, k: TokenKind, floats: &F) -> (r: Result<SpannedToken, String>)
        requires
            floats_ok(*floats),
            old(self).ready(),
        ensures
            ({
                let s = p_expect(old(self).toks(*floats), old(self).pos as int, k);
                &&& old(self).stepped(final(self), s)
                &&& match r {
                    Ok(t) => s.res == Ok::<Tok, Seq<char>>(tok_of(*floats, t)),
                    Err(m) => s.res == Err::<Tok, Seq<char>>(m@),
                }
            }),
    {
        match self.advance(floats) {
            Some(t) => {
                if t.token.kind() == k {
                    Ok(t)
                } else {
                    let mut m = expected_message(k, Some(&t), floats);
                    let l = location_text(&t);
                    push_text(&mut m, l.as_str());
                    Err(m)
                }
            },
            None => Err(expected_message(k, None, floats)),
        }
    }

    fn parse_ident<F: Fn(FloatOp) -> u64>(&mut self, floats: &F) -> (r: Result<String, String>)
        requires
            floats_ok(*floats),
            old(self).ready(),
        ensures
            ({
                let s = p_ident(old(self).toks(*floats), old(self).pos as int);
                old(self).stepped(final(self), s) && agrees(r, s.res)
            }),
    {
        match self.advance(floats) {
            Some(SpannedToken { token: Token::Ident(s), .. }) => Ok(s),
            Some(t) => {
                let mut m = text("Expected identifier");
                let l = location_text(&t);
                push_text(&mut m, l.as_str());
                Err(m)
            },
            None => Err(text("Expected identifier")),
        }
    }

    fn parse_string<F: Fn(FloatOp) -> u64>(&mut self, floats: &F) -> (r: Result<String, String>)
        requires
            floats_ok(*floats),
            old(self).ready(),
        ensures
            ({
                let s = p_string(old(self).toks(*floats), old(self).pos as int);
                old(self).stepped(final(self), s) && agrees(r, s.res)
            }),
    {
        match self.advance(floats) {
            Some(SpannedToken { token: Token::StringLiteral(s), .. }) => Ok(s),
            Some(t) => {
                let mut m = text("Expected string");
                let l = location_text(&t);
                push_text(&mut m, l.as_str());
                Err(m)
            },
            None => Err(text("Expected string")),
        }
    }

    fn parse_type<F: Fn(FloatOp) -> u64>(&mut self, floats: &F) -> (r: Result<Type, String>)
        requires
            floats_ok(*floats),
            old(self).ready(),
        ensures
            ({
                let s = p_type(old(self).toks(*floats), old(self).pos as int);
                old(self).stepped(final(self), s) && agrees(r, s.res)
            }),
    {
        if self.peek_token(TokenKind::Type, floats) {
            self.advance(floats);
            return Ok(Type::Prim(PrimType::Int));
        }
        let ident = match self.parse_ident(floats) {
            Ok(n) => n,
            Err(m) => return Err(m),
        };
        let named = type_named(ident);
        if self.peek_token(TokenKind::LBracket, floats) {
            self.advance(floats);
            match self.expect(TokenKind::RBracket, floats) {
                Ok(_) => {},
                Err(m) => return Err(m),
            }
            return Ok(Type::Slice(Box::new(named)));
        }
        if self.peek_token(TokenKind::Star, floats) {
            self.advance(floats);
            return Ok(Type::Ptr(Box::new(named)));
        }
        Ok(named)
    }

    /// The operator of precedence `level` at the current position, if any.
    fn peek_binop<F: Fn(FloatOp) -> u64>(&self, level: usize, floats: &F) -> (r: Option<BinOp>)
        ensures
            r == match at(self.toks(*floats), self.pos as int) {
                Some(t) => binop_at(level as int, t.kind),
                None => None,
            },
    {
        match self.peek(floats) {
            None => None,
            Some(t) => {
                let k = t.token.kind();
                if level == 0 {
                    if k == TokenKind::Or {
                        Some(BinOp::Or)
                    } else {
                        None
                    }
                } else if level == 1 {
                    if k == TokenKind::And {
                        Some(BinOp::And)
                    } else {
                        None
                    }
                } else if level == 2 {
                    if k == TokenKind::Xor {
                        Some(BinOp::Xor)
                    } else {
                        None
                    }
                } else if level == 3 {
                    if k == TokenKind::BitOr {
                        Some(BinOp::BitOr)
                    } else {
                        None
                    }
                } else if level == 4 {
                    if k == TokenKind::BitAnd {
                        Some(BinOp::BitAnd)
                    } else {
                        None
                    }
                } else if level == 5 {
                    if k == TokenKind::EqEq {
                        Some(BinOp::Eq)
                    } else if k == TokenKind::BangEq {
                        Some(BinOp::Ne)
                    } else {
                        None
                    }
                } else if level == 6 {
                    if k == TokenKind::Less {
                        Some(BinOp::Lt)
                    } else if k == TokenKind::LessEq {
                        Some(BinOp::Le)
                    } else if k == TokenKind::Greater {
                        Some(BinOp::Gt)
                    } else if k == TokenKind::GreaterEq {
                        Some(BinOp::Ge)
                    } else {
                        None
                    }
                } else if level == 7 {
                    if k == TokenKind::Plus {
                        Some(BinOp::Add)
                    } else if k == TokenKind::Minus {
                        Some(BinOp::Sub)
                    } else {
                        None
                    }
                } else if k == TokenKind::Star {
                    Some(BinOp::Mul)
                } else if k == TokenKind::Slash {
                    Some(BinOp::Div)
                } else if k == TokenKind::Percent {
                    Some(BinOp::Mod)
                } else {
                    None
                }
            },
        }
    }

    /// An expression (`parse_expr`).
    fn parse_expr<F: Fn(FloatOp) -> u64>(&mut self, floats: &F) -> (r: Result<Expr, String>)
        requires
            floats_ok(*floats),
            old(self).ready(),
        ensures
            ({
                let s = p_assign(old(self).toks(*floats), old(self).pos as int);
                old(self).stepped(final(self), s) && agrees(r, s.res)
            }),
        decreases old(self).tokens.len() - old(self).pos, 36int,
    {
        self.parse_assign(floats)
    }

    fn parse_assign<F: Fn(FloatOp) -> u64>(&mut self, floats: &F) -> (r: Result<Expr, String>)
        requires
            floats_ok(*floats),
            old(self).ready(),
        ensures
            ({
                let s = p_assign(old(self).toks(*floats), old(self).pos as int);
                old(self).stepped(final(self), s) && agrees(r, s.res)
            }),
        decreases old(self).tokens.len() - old(self).pos, 35int,
    {
        let left = match self.parse_binary(0, floats) {
            Ok(e) => e,
            Err(m) => return Err(m),
        };
        if self.peek_token(TokenKind::Assign, floats) {
            self.advance(floats);
            let right = match self.parse_assign(floats) {
                Ok(e) => e,
                Err(m) => return Err(m),
            };
            return Ok(Expr::BinaryOp(Box::new(left), BinOp::Assign, Box::new(right)));
        }
        Ok(left)
    }

    /// The operand of precedence `level`.
    fn parse_operand<F: Fn(FloatOp) -> u64>(&mut self, level: usize, floats: &F) -> (r: Result<Expr, String>)
        requires
            floats_ok(*floats),
            old(self).ready(),
            level <= 8,
        ensures
            ({
                let s = p_operand(old(self).toks(*floats), level as int, old(self).pos as int);
                old(self).stepped(final(self), s) && agrees(r, s.res)
            }),
        decreases old(self).tokens.len() - old(self).pos, rank_operand(level as int),
    {
        if level < 8 {
            self.parse_binary(level + 1, floats)
        } else {
            self.parse_unary(floats)
        }
    }

    /// Operators of precedence `level` (0 is `||`, 8 is `*`), left-associative.
    #[verifier::loop_isolation(false)]
    fn parse_binary<F: Fn(FloatOp) -> u64>(&mut self, level: usize, floats: &F) -> (r: Result<Expr, String>)
        requires
            floats_ok(*floats),
            old(self).ready(),
            level <= 8,
        ensures
            ({
                let s = p_binary(old(self).toks(*floats), level as int, old(self).pos as int);
                old(self).stepped(final(self), s) && agrees(r, s.res)
            }),
        decreases old(self).tokens.len() - old(self).pos, rank_binary(level as int),
    {
        let ghost toks = self.toks(*floats);
        let ghost p0 = self.pos as int;
        let mut left = match self.parse_operand(level, floats) {
            Ok(e) => e,
            Err(m) => return Err(m),
        };
        loop
            invariant
                self.wf(),
                self.tokens == old(self).tokens,
                toks == self.toks(*floats),
                p0 < self.pos <= self.tokens.len(),
                p_binary(toks, level as int, p0) == p_binary_rest(toks, level as int, left@, self.pos as int),
            decreases self.tokens.len() - self.pos,
        {
            match self.peek_binop(level, floats) {
                None => return Ok(left),
                Some(op) => {
                    self.advance(floats);
                    let right = match self.parse_operand(level, floats) {
                        Ok(e) => e,
                        Err(m) => return Err(m),
                    };
                    left = Expr::BinaryOp(Box::new(left), op, Box::new(right));
                },
            }
        }
    }

    fn parse_unary<F: Fn(FloatOp) -> u64>(&mut self, floats: &F) -> (r: Result<Expr, String>)
        requires
            floats_ok(*floats),
            old(self).ready(),
        ensures
            ({
                let s = p_unary(old(self).toks(*floats), old(self).pos as int);
                old(self).stepped(final(self), s) && agrees(r, s.res)
            }),
        decreases old(self).tokens.len() - old(self).pos, 11int,
    {
        if self.peek_token(TokenKind::Minus, floats) {
            self.advance(floats);
            let expr = match self.parse_unary(floats) {
                Ok(e) => e,
                Err(m) => return Err(m),
            };
            return Ok(Expr::UnaryOp(UnaryOp::Neg, Box::new(expr)));
        }
        if self.peek_token(TokenKind::Not, floats) {
            self.advance(floats);
            let expr = match self.parse_unary(floats) {
                Ok(e) => e,
                Err(m) => return Err(m),
            };
            return Ok(Expr::UnaryOp(UnaryOp::Not, Box::new(expr)));
        }
        self.parse_primary(floats)
    }

    #[verifier::loop_isolation(false)]
    fn parse_primary<F: Fn(FloatOp) -> u64>(&mut self, floats: &F) -> (r: Result<Expr, String>)
        requires
            floats_ok(*floats),
            old(self).ready(),
        ensures
            ({
                let s = p_primary(old(self).toks(*floats), old(self).pos as int);
                old(self).stepped(final(self), s) && agrees(r, s.res)
            }),
        decreases old(self).tokens.len() - old(self).pos, 10int,
    {
        let ghost toks = self.toks(*floats);
        let ghost p0 = self.pos as int;
        if self.peek_token(TokenKind::Number, floats) {
            let e = number_literal(self.tokens[self.pos].token.text().unwrap(), floats);
            self.advance(floats);
            return Ok(e);
        }
        if self.peek_token(TokenKind::StringLiteral, floats) {
            let s = self.tokens[self.pos].token.text().unwrap().clone();
            self.advance(floats);
            return Ok(Expr::StringLiteral(s));
        }
        let ident = match self.parse_ident(floats) {
            Ok(n) => n,
            Err(m) => return Err(m),
        };
        let mut expr = Expr::Ident(ident);
        while self.peek_token(TokenKind::Dot, floats)
            invariant
                self.wf(),
                self.tokens == old(self).tokens,
                toks == self.toks(*floats),
                p0 < self.pos <= self.tokens.len(),
                p_primary(toks, p0) == p_postfix(toks, expr@, self.pos as int),
            decreases self.tokens.len() - self.pos,
        {
            self.advance(floats);
            let field = match self.parse_ident(floats) {
                Ok(n) => n,
                Err(m) => return Err(m),
            };
            expr = Expr::FieldAccess(Box::new(expr), field);
        }
        if self.peek_token(TokenKind::LParen, floats) {
            let lp = self.pos;
            self.advance(floats);
            let mut args: Vec<Expr> = Vec::new();
            if !self.peek_token(TokenKind::RParen, floats) {
                let first = match self.parse_expr(floats) {
                    Ok(e) => e,
                    Err(m) => return Err(m),
                };
                args.push(first);
                assert(exprs_view(args@) =~= seq![first@]);
                while self.peek_token(TokenKind::Comma, floats)
                    invariant
                        self.wf(),
                        self.tokens == old(self).tokens,
                        toks == self.toks(*floats),
                        p0 < self.pos <= self.tokens.len(),
                        p_primary(toks, p0) == p_args(toks, expr@, exprs_view(args@), self.pos as int, lp as int),
                        lp < self.tokens.len(),
                    decreases self.tokens.len() - self.pos,
                {
                    self.advance(floats);
                    let next = match self.parse_expr(floats) {
                        Ok(e) => e,
                        Err(m) => return Err(m),
                    };
                    let ghost before = args@;
                    args.push(next);
                    assert(exprs_view(args@) =~= exprs_view(before).push(next@));
                }
                match self.expect(TokenKind::RParen, floats) {
                    Ok(_) => {},
                    Err(m) => return Err(m),
                }
            } else {
                self.advance(floats);
                assert(exprs_view(args@) =~= Seq::<ExprV>::empty());
            }
            return match dotted_name_of(&expr) {
                Some(name) => Ok(Expr::Call(name, args)),
                None => {
                    let mut m = text("Expected identifier for function call");
                    let l = location_text(&self.tokens[lp]);
                    push_text(&mut m, l.as_str());
                    Err(m)
                },
            };
        }
        Ok(expr)
    }

    /// Statements up to and including the `}` that closes the block.
    #[verifier::loop_isolation(false)]
    fn parse_block<F: Fn(FloatOp) -> u64>(&mut self, floats: &F) -> (r: Result<Expr, String>)
        requires
            floats_ok(*floats),
            old(self).ready(),
        ensures
            ({
                let s = p_block(old(self).toks(*floats), old(self).pos as int);
                old(self).stepped(final(self), s) && agrees(r, s.res)
            }),
        decreases old(self).tokens.len() - old(self).pos, 40int,
    {
        let ghost toks = self.toks(*floats);
        let ghost p0 = self.pos as int;
        let mut stmts: Vec<Stmt> = Vec::new();
        assert(stmts_view(stmts@) =~= Seq::<StmtV>::empty());
        while !self.peek_token(TokenKind::RBrace, floats)
            invariant
                self.wf(),
                self.tokens == old(self).tokens,
                toks == self.toks(*floats),
                p0 <= self.pos <= self.tokens.len(),
                p_block(toks, p0) == p_block_rest(toks, stmts_view(stmts@), self.pos as int),
            decreases self.tokens.len() - self.pos,
        {
            let s = match self.parse_stmt(floats) {
                Ok(s) => s,
                Err(m) => return Err(m),
            };
            let ghost before = stmts@;
            stmts.push(s);
            assert(stmts_view(stmts@) =~= stmts_view(before).push(s@));
        }
        self.advance(floats);
        Ok(Expr::Block(stmts))
    }

    /// `{` and a block.
    fn parse_braced<F: Fn(FloatOp) -> u64>(&mut self, floats: &F) -> (r: Result<Expr, String>)
        requires
            floats_ok(*floats),
            old(self).ready(),
        ensures
            ({
                let s = p_braced(old(self).toks(*floats), old(self).pos as int);
                old(self).stepped(final(self), s) && agrees(r, s.res)
            }),
        decreases old(self).tokens.len() - old(self).pos, 41int,
    {
        match self.expect(TokenKind::LBrace, floats) {
            Ok(_) => {},
            Err(m) => return Err(m),
        }
        self.parse_block(floats)
    }

    /// `= expr ;`
    fn parse_init<F: Fn(FloatOp) -> u64>(&mut self, floats: &F) -> (r: Result<Expr, String>)
        requires
            floats_ok(*floats),
            old(self).ready(),
        ensures
            ({
                let s = p_init(old(self).toks(*floats), old(self).pos as int);
                old(self).stepped(final(self), s) && agrees(r, s.res)
            }),
        decreases old(self).tokens.len() - old(self).pos, 37int,
    {
        match self.expect(TokenKind::Assign, floats) {
            Ok(_) => {},
            Err(m) => return Err(m),
        }
        let expr = match self.parse_expr(floats) {
            Ok(e) => e,
            Err(m) => return Err(m),
        };
        match self.expect(TokenKind::Semi, floats) {
            Ok(_) => {},
            Err(m) => return Err(m),
        }
        Ok(expr)
    }

    /// `: type = expr ;`
    fn parse_typed_init<F: Fn(FloatOp) -> u64>(&mut self, floats: &F) -> (r: Result<(Type, Expr), String>)
        requires
            floats_ok(*floats),
            old(self).ready(),
        ensures
            ({
                let s = p_typed_init(old(self).toks(*floats), old(self).pos as int);
                &&& old(self).stepped(final(self), s)
                &&& match r {
                    Ok(tx) => s.res == Ok::<(TypeV, ExprV), Seq<char>>((tx.0@, tx.1@)),
                    Err(m) => s.res == Err::<(TypeV, ExprV), Seq<char>>(m@),
                }
            }),
        decreases old(self).tokens.len() - old(self).pos, 37int,
    {
        match self.expect(TokenKind::Colon, floats) {
            Ok(_) => {},
            Err(m) => return Err(m),
        }
        let ty = match self.parse_type(floats) {
            Ok(t) => t,
            Err(m) => return Err(m),
        };
        let expr = match self.parse_init(floats) {
            Ok(e) => e,
            Err(m) => return Err(m),
        };
        Ok((ty, expr))
    }

    fn parse_stmt<F: Fn(FloatOp) -> u64>(&mut self, floats: &F) -> (r: Result<Stmt, String>)
        requires
            floats_ok(*floats),
            old(self).ready(),
        ensures
            ({
                let s = p_stmt(old(self).toks(*floats), old(self).pos as int);
                old(self).stepped(final(self), s) && agrees(r, s.res)
            }),
        decreases old(self).tokens.len() - old(self).pos, 38int,
    {
        if self.peek_token(TokenKind::Let, floats) {
            self.advance(floats);
            let mut_ty = self.peek_token(TokenKind::Mut, floats);
            if mut_ty {
                self.advance(floats);
            }
            let name = match self.parse_ident(floats) {
                Ok(n) => n,
                Err(m) => return Err(m),
            };
            if self.peek_token(TokenKind::Colon, floats) {
                let (ty, expr) = match self.parse_typed_init(floats) {
                    Ok(tx) => tx,
                    Err(m) => return Err(m),
                };
                return Ok(Stmt::Let(name, Some(ty), expr));
            } else {
                let expr = match self.parse_init(floats) {
                    Ok(e) => e,
                    Err(m) => return Err(m),
                };
                return Ok(
                    Stmt::Let(
                        name,
                        if mut_ty {
                            Some(Type::Prim(PrimType::Int))
                        } else {
                            None
                        },
                        expr,
                    ),
                );
            }
        }
        if self.peek_token(TokenKind::Const, floats) {
            self.advance(floats);
            let name = match self.parse_ident(floats) {
                Ok(n) => n,
                Err(m) => return Err(m),
            };
            let (ty, expr) = match self.parse_typed_init(floats) {
                Ok(tx) => tx,
                Err(m) => return Err(m),
            };
            return Ok(Stmt::Const(name, Some(ty), expr));
        }
        if self.peek_token(TokenKind::Return, floats) {
            self.advance(floats);
            if self.peek_token(TokenKind::RBrace, floats) || self.at_end(floats) {
                return Ok(Stmt::Return(None));
            }
            let expr = match self.parse_expr(floats) {
                Ok(e) => e,
                Err(m) => return Err(m),
            };
            if self.peek_token(TokenKind::Semi, floats) {
                self.advance(floats);
            }
            return Ok(Stmt::Return(Some(Box::new(expr))));
        }
        if self.peek_token(TokenKind::For, floats) {
            self.advance(floats);
            let name = match self.parse_ident(floats) {
                Ok(n) => n,
                Err(m) => return Err(m),
            };
            match self.expect(TokenKind::In, floats) {
                Ok(_) => {},
                Err(m) => return Err(m),
            }
            let start = match self.parse_expr(floats) {
                Ok(e) => e,
                Err(m) => return Err(m),
            };
            match self.expect(TokenKind::DotDot, floats) {
                Ok(_) => {},
                Err(m) => return Err(m),
            }
            let end = match self.parse_expr(floats) {
                Ok(e) => e,
                Err(m) => return Err(m),
            };
            let body = match self.parse_braced(floats) {
                Ok(e) => e,
                Err(m) => return Err(m),
            };
            return Ok(Stmt::For(name, Box::new(start), Box::new(end), body));
        }
        if self.peek_token(TokenKind::If, floats) {
            self.advance(floats);
            let cond = match self.parse_expr(floats) {
                Ok(e) => e,
                Err(m) => return Err(m),
            };
            let then_branch = match self.parse_braced(floats) {
                Ok(e) => e,
                Err(m) => return Err(m),
            };
            let else_branch = if self.peek_token(TokenKind::Else, floats) {
                self.advance(floats);
                let body = match self.parse_braced(floats) {
                    Ok(e) => e,
                    Err(m) => return Err(m),
                };
                Some(body)
            } else {
                None
            };
            return Ok(Stmt::If(Box::new(cond), then_branch, else_branch));
        }
        if self.peek_token(TokenKind::While, floats) {
            self.advance(floats);
            let cond = match self.parse_expr(floats) {
                Ok(e) => e,
                Err(m) => return Err(m),
            };
            let body = match self.parse_braced(floats) {
                Ok(e) => e,
                Err(m) => return Err(m),
            };
            return Ok(Stmt::While(Box::new(cond), body));
        }
        let expr = match self.parse_assign(floats) {
            Ok(e) => e,
            Err(m) => return Err(m),
        };
        if self.peek_token(TokenKind::Semi, floats) {
            self.advance(floats);
        }
        Ok(Stmt::Expr(expr))
    }

    /// A function, after `fn`.
    #[verifier::loop_isolation(false)]
    fn parse_fn<F: Fn(FloatOp) -> u64>(&mut self, floats: &F) -> (r: Result<Item, String>)
        requires
            floats_ok(*floats),
            old(self).ready(),
        ensures
            ({
                let s = p_fn(old(self).toks(*floats), old(self).pos as int);
                old(self).stepped(final(self), s) && agrees(r, s.res)
            }),
    {
        let ghost toks = self.toks(*floats);
        let name = match self.parse_ident(floats) {
            Ok(n) => n,
            Err(m) => return Err(m),
        };
        match self.expect(TokenKind::LParen, floats) {
            Ok(_) => {},
            Err(m) => return Err(m),
        }
        let ghost q0 = self.pos as int;
        let mut params: Vec<(String, Type)> = Vec::new();
        assert(named_types_view(params@) =~= Seq::<(Seq<char>, TypeV)>::empty());
        if !self.peek_token(TokenKind::RParen, floats) {
            let mut more = true;
            while more
                invariant
                    self.wf(),
                    self.tokens == old(self).tokens,
                    toks == self.toks(*floats),
                    q0 <= self.pos <= self.tokens.len(),
                    more ==> p_params(toks, Seq::empty(), q0) == p_params(
                        toks,
                        named_types_view(params@),
                        self.pos as int,
                    ),
                    !more ==> p_params(toks, Seq::empty(), q0) == ok(
                        named_types_view(params@),
                        self.pos as int,
                    ),
                decreases self.tokens.len() - self.pos,
            {
                let pname = match self.parse_ident(floats) {
                    Ok(n) => n,
                    Err(m) => return Err(m),
                };
                match self.expect(TokenKind::Colon, floats) {
                    Ok(_) => {},
                    Err(m) => return Err(m),
                }
                let ptype = match self.parse_type(floats) {
                    Ok(t) => t,
                    Err(m) => return Err(m),
                };
                let ghost before = params@;
                params.push((pname, ptype));
                assert(named_types_view(params@) =~= named_types_view(before).push((pname@, ptype@)));
                if self.peek_token(TokenKind::Comma, floats) {
                    self.advance(floats);
                } else {
                    more = false;
                }
            }
        }
        match self.expect(TokenKind::RParen, floats) {
            Ok(_) => {},
            Err(m) => return Err(m),
        }
        match self.expect(TokenKind::Arrow, floats) {
            Ok(_) => {},
            Err(m) => return Err(m),
        }
        let ret = match self.parse_type(floats) {
            Ok(t) => t,
            Err(m) => return Err(m),
        };
        let body = match self.parse_braced(floats) {
            Ok(e) => e,
            Err(m) => return Err(m),
        };
        Ok(Item::Fn { name, params, ret, body })
    }

    /// A struct, after `struct`.
    #[verifier::loop_isolation(false)]
    fn parse_struct<F: Fn(FloatOp) -> u64>(&mut self, floats: &F) -> (r: Result<Item, String>)
        requires
            floats_ok(*floats),
            old(self).ready(),
        ensures
            ({
                let s = p_struct(old(self).toks(*floats), old(self).pos as int);
                old(self).stepped(final(self), s) && agrees(r, s.res)
            }),
    {
        let ghost toks = self.toks(*floats);
        let name = match self.parse_ident(floats) {
            Ok(n) => n,
            Err(m) => return Err(m),
        };
        match self.expect(TokenKind::LBrace, floats) {
            Ok(_) => {},
            Err(m) => return Err(m),
        }
        let ghost q0 = self.pos as int;
        let mut fields: Vec<(String, Type)> = Vec::new();
        assert(named_types_view(fields@) =~= Seq::<(Seq<char>, TypeV)>::empty());
        while !self.peek_token(TokenKind::RBrace, floats)
            invariant
                self.wf(),
                self.tokens == old(self).tokens,
                toks == self.toks(*floats),
                q0 <= self.pos <= self.tokens.len(),
                p_field_decls(toks, Seq::empty(), q0) == p_field_decls(
                    toks,
                    named_types_view(fields@),
                    self.pos as int,
                ),
            decreases self.tokens.len() - self.pos,
        {
            let fname = match self.parse_ident(floats) {
                Ok(n) => n,
                Err(m) => return Err(m),
            };
            match self.expect(TokenKind::Colon, floats) {
                Ok(_) => {},
                Err(m) => return Err(m),
            }
            let ftype = match self.parse_type(floats) {
                Ok(t) => t,
                Err(m) => return Err(m),
            };
            let ghost before = fields@;
            fields.push((fname, ftype));
            assert(named_types_view(fields@) =~= named_types_view(before).push((fname@, ftype@)));
            if self.peek_token(TokenKind::Comma, floats) {
                self.advance(floats);
            }
        }
        self.advance(floats);
        Ok(Item::Struct { name, fields })
    }

    /// An import, after `import`.
    fn parse_import<F: Fn(FloatOp) -> u64>(&mut self, floats: &F) -> (r: Result<Item, String>)
        requires
            floats_ok(*floats),
            old(self).ready(),
        ensures
            ({
                let s = p_import(old(self).toks(*floats), old(self).pos as int);
                old(self).stepped(final(self), s) && agrees(r, s.res)
            }),
    {
        let path = match self.parse_string(floats) {
            Ok(s) => s,
            Err(m) => return Err(m),
        };
        let alias = if self.peek_token(TokenKind::As, floats) {
            self.advance(floats);
            match self.parse_ident(floats) {
                Ok(a) => Some(a),
                Err(m) => return Err(m),
            }
        } else {
            None
        };
        match self.expect(TokenKind::Semi, floats) {
            Ok(_) => {},
            Err(m) => return Err(m),
        }
        Ok(Item::Import { path, alias })
    }

    fn parse_item<F: Fn(FloatOp) -> u64>(&mut self, floats: &F) -> (r: Result<Item, String>)
        requires
            floats_ok(*floats),
            old(self).ready(),
        ensures
            ({
                let s = p_item(old(self).toks(*floats), old(self).pos as int);
                old(self).stepped(final(self), s) && agrees(r, s.res)
            }),
    {
        if self.peek_token(TokenKind::Fn, floats) {
            self.advance(floats);
            self.parse_fn(floats)
        } else if self.peek_token(TokenKind::Struct, floats) {
            self.advance(floats);
            self.parse_struct(floats)
        } else if self.peek_token(TokenKind::Import, floats) {
            self.advance(floats);
            self.parse_import(floats)
        } else {
            match self.peek(floats) {
                Some(t) => {
                    let mut m = item_message(Some(t), floats);
                    let l = location_text(t);
                    push_text(&mut m, l.as_str());
                    Err(m)
                },
                None => Err(item_message(None, floats)),
            }
        }
    }

    /// Parses items until the end of the tokens or an `Eof` token. On an
    /// error the parser stays where the error was found, and parsing can be
    /// resumed from there. Number literals are read, and printed in
    /// messages, by the float function `floats`, which must answer every
    /// question and each one a single way.
    #[verifier::loop_isolation(false)]
    pub fn parse<F: Fn(FloatOp) -> u64>(&mut self, floats: &F) -> (r: Result<Vec<Item>, String>)
        requires
            floats_ok(*floats),
            old(self).wf(),
        ensures
            final(self).wf(),
            final(self).toks(*floats) == old(self).toks(*floats),
            r is Ok ==> at_end(final(self).toks(*floats), final(self).position()),
            ({
                let s = p_program(old(self).toks(*floats), Seq::empty(), old(self).position());
                &&& final(self).position() == s.pos
                &&& match r {
                    Ok(items) => s.res == Ok::<Seq<ItemV>, Seq<char>>(items_view(items@)),
                    Err(m) => s.res == Err::<Seq<ItemV>, Seq<char>>(m@),
                }
            }),
    {
        let ghost toks = self.toks(*floats);
        let ghost p0 = self.pos as int;
        let mut items: Vec<Item> = Vec::new();
        assert(items_view(items@) =~= Seq::<ItemV>::empty());
        while !self.at_end(floats)
            invariant
                self.wf(),
                self.tokens == old(self).tokens,
                toks == self.toks(*floats),
                p0 <= self.pos,
                p_program(toks, Seq::empty(), p0) == p_program(toks, items_view(items@), self.pos as int),
            decreases self.tokens.len() - self.pos,
        {
            let item = match self.parse_item(floats) {
                Ok(i) => i,
                Err(m) => return Err(m),
            };
            let ghost before = items@;
            items.push(item);
            assert(items_view(items@) =~= items_view(before).push(item@));
        }
        Ok(items)
    }
}

} // verus!
