//! Turning source text into tokens.
//!
//! The lexer walks the characters of the input once. Besides the token
//! itself it keeps `pos`, a byte counter that becomes the token spans. Most
//! characters advance `pos` by their UTF-8 width; a character that starts no
//! token advances it by one, so after a multi-byte stray character the
//! counter falls behind the true byte offset. The specification below models
//! that counter exactly.

use vstd::prelude::*;
use vstd::string::StringSliceAdditionalSpecFns;
use crate::text::{
    alpha_test, byte_len, char_width, chars_of, digit_test, is_alpha, is_digit, is_word, is_ws,
    is_whitespace, lemma_byte_len_prefix, lemma_width_range, lemma_byte_len_take_step, lemma_encode_len, push_char,
    text, utf8_width, word_test,
};

verus! {

broadcast use vstd::string::group_string_axioms;

/// What kind of token a [`Token`] is, without its text.
#[derive(Clone, Copy, Debug, PartialEq, Eq, Structural)]
pub enum TokenKind {
    Eof,
    Error,
    Fn,
    Let,
    Mut,
    Const,
    If,
    Else,
    For,
    While,
    Return,
    Struct,
    Import,
    As,
    Type,
    Trait,
    Impl,
    Pub,
    Mod,
    Crate,
    Self_,
    Super,
    Use,
    In,
    Match,
    Branch,
    Default,
    Number,
    StringLiteral,
    Ident,
    Plus,
    Minus,
    Star,
    Slash,
    Percent,
    Assign,
    EqEq,
    BangEq,
    Less,
    LessEq,
    Greater,
    GreaterEq,
    And,
    Or,
    Xor,
    Not,
    BitAnd,
    BitOr,
    Arrow,
    DotDot,
    Dot,
    PlusEq,
    MinusEq,
    StarEq,
    SlashEq,
    Increment,
    Decrement,
    LParen,
    RParen,
    LBracket,
    RBracket,
    LBrace,
    RBrace,
    Comma,
    Colon,
    Semi,
    Pound,
}

/// A token of the language. Number literals keep the digits they were
/// written with (`12`, `3.25`); their numeric value is read by the parser.
#[derive(Debug, PartialEq)]
pub enum Token {
    Eof,
    Error,
    Fn,
    Let,
    Mut,
    Const,
    If,
    Else,
    For,
    While,
    Return,
    Struct,
    Import,
    As,
    Type,
    Trait,
    Impl,
    Pub,
    Mod,
    Crate,
    Self_,
    Super,
    Use,
    In,
    Match,
    Branch,
    Default,
    Number(String),
    StringLiteral(String),
    Ident(String),
    Plus,
    Minus,
    Star,
    Slash,
    Percent,
    Assign,
    EqEq,
    BangEq,
    Less,
    LessEq,
    Greater,
    GreaterEq,
    And,
    Or,
    Xor,
    Not,
    BitAnd,
    BitOr,
    Arrow,
    DotDot,
    Dot,
    PlusEq,
    MinusEq,
    StarEq,
    SlashEq,
    Increment,
    Decrement,
    LParen,
    RParen,
    LBracket,
    RBracket,
    LBrace,
    RBrace,
    Comma,
    Colon,
    Semi,
    Pound,
}

/// A token as the specifications see it: its kind, and the text it carries
/// (empty for every kind but `Number`, `StringLiteral` and `Ident`).
pub struct TokenView {
    pub kind: TokenKind,
    pub text: Seq<char>,
}

/// The view of a token with no text.
pub open spec fn tk(k: TokenKind) -> TokenView {
    TokenView { kind: k, text: Seq::empty() }
}

/// Whether tokens of this kind carry text.
pub open spec fn has_text(k: TokenKind) -> bool {
    k == TokenKind::Number || k == TokenKind::StringLiteral || k == TokenKind::Ident
}

pub open spec fn token_kind(t: Token) -> TokenKind {
    match t {
        Token::Eof => TokenKind::Eof,
        Token::Error => TokenKind::Error,
        Token::Fn => TokenKind::Fn,
        Token::Let => TokenKind::Let,
        Token::Mut => TokenKind::Mut,
        Token::Const => TokenKind::Const,
        Token::If => TokenKind::If,
        Token::Else => TokenKind::Else,
        Token::For => TokenKind::For,
        Token::While => TokenKind::While,
        Token::Return => TokenKind::Return,
        Token::Struct => TokenKind::Struct,
        Token::Import => TokenKind::Import,
        Token::As => TokenKind::As,
        Token::Type => TokenKind::Type,
        Token::Trait => TokenKind::Trait,
        Token::Impl => TokenKind::Impl,
        Token::Pub => TokenKind::Pub,
        Token::Mod => TokenKind::Mod,
        Token::Crate => TokenKind::Crate,
        Token::Self_ => TokenKind::Self_,
        Token::Super => TokenKind::Super,
        Token::Use => TokenKind::Use,
        Token::In => TokenKind::In,
        Token::Match => TokenKind::Match,
        Token::Branch => TokenKind::Branch,
        Token::Default => TokenKind::Default,
        Token::Number(_) => TokenKind::Number,
        Token::StringLiteral(_) => TokenKind::StringLiteral,
        Token::Ident(_) => TokenKind::Ident,
        Token::Plus => TokenKind::Plus,
        Token::Minus => TokenKind::Minus,
        Token::Star => TokenKind::Star,
        Token::Slash => TokenKind::Slash,
        Token::Percent => TokenKind::Percent,
        Token::Assign => TokenKind::Assign,
        Token::EqEq => TokenKind::EqEq,
        Token::BangEq => TokenKind::BangEq,
        Token::Less => TokenKind::Less,
        Token::LessEq => TokenKind::LessEq,
        Token::Greater => TokenKind::Greater,
        Token::GreaterEq => TokenKind::GreaterEq,
        Token::And => TokenKind::And,
        Token::Or => TokenKind::Or,
        Token::Xor => TokenKind::Xor,
        Token::Not => TokenKind::Not,
        Token::BitAnd => TokenKind::BitAnd,
        Token::BitOr => TokenKind::BitOr,
        Token::Arrow => TokenKind::Arrow,
        Token::DotDot => TokenKind::DotDot,
        Token::Dot => TokenKind::Dot,
        Token::PlusEq => TokenKind::PlusEq,
        Token::MinusEq => TokenKind::MinusEq,
        Token::StarEq => TokenKind::StarEq,
        Token::SlashEq => TokenKind::SlashEq,
        Token::Increment => TokenKind::Increment,
        Token::Decrement => TokenKind::Decrement,
        Token::LParen => TokenKind::LParen,
        Token::RParen => TokenKind::RParen,
        Token::LBracket => TokenKind::LBracket,
        Token::RBracket => TokenKind::RBracket,
        Token::LBrace => TokenKind::LBrace,
        Token::RBrace => TokenKind::RBrace,
        Token::Comma => TokenKind::Comma,
        Token::Colon => TokenKind::Colon,
        Token::Semi => TokenKind::Semi,
        Token::Pound => TokenKind::Pound,
    }
}

pub open spec fn token_text(t: Token) -> Seq<char> {
    match t {
        Token::Number(s) => s@,
        Token::StringLiteral(s) => s@,
        Token::Ident(s) => s@,
        _ => Seq::empty(),
    }
}

impl View for Token {
    type V = TokenView;

    open spec fn view(&self) -> TokenView {
        TokenView { kind: token_kind(*self), text: token_text(*self) }
    }
}

impl Token {
    /// The kind of this token.
    pub fn kind(&self) -> (k: TokenKind)
        ensures
            k == self@.kind,
    {
        match self {
            Token::Eof => TokenKind::Eof,
            Token::Error => TokenKind::Error,
            Token::Fn => TokenKind::Fn,
            Token::Let => TokenKind::Let,
            Token::Mut => TokenKind::Mut,
            Token::Const => TokenKind::Const,
            Token::If => TokenKind::If,
            Token::Else => TokenKind::Else,
            Token::For => TokenKind::For,
            Token::While => TokenKind::While,
            Token::Return => TokenKind::Return,
            Token::Struct => TokenKind::Struct,
            Token::Import => TokenKind::Import,
            Token::As => TokenKind::As,
            Token::Type => TokenKind::Type,
            Token::Trait => TokenKind::Trait,
            Token::Impl => TokenKind::Impl,
            Token::Pub => TokenKind::Pub,
            Token::Mod => TokenKind::Mod,
            Token::Crate => TokenKind::Crate,
            Token::Self_ => TokenKind::Self_,
            Token::Super => TokenKind::Super,
            Token::Use => TokenKind::Use,
            Token::In => TokenKind::In,
            Token::Match => TokenKind::Match,
            Token::Branch => TokenKind::Branch,
            Token::Default => TokenKind::Default,
            Token::Number(_) => TokenKind::Number,
            Token::StringLiteral(_) => TokenKind::StringLiteral,
            Token::Ident(_) => TokenKind::Ident,
            Token::Plus => TokenKind::Plus,
            Token::Minus => TokenKind::Minus,
            Token::Star => TokenKind::Star,
            Token::Slash => TokenKind::Slash,
            Token::Percent => TokenKind::Percent,
            Token::Assign => TokenKind::Assign,
            Token::EqEq => TokenKind::EqEq,
            Token::BangEq => TokenKind::BangEq,
            Token::Less => TokenKind::Less,
            Token::LessEq => TokenKind::LessEq,
            Token::Greater => TokenKind::Greater,
            Token::GreaterEq => TokenKind::GreaterEq,
            Token::And => TokenKind::And,
            Token::Or => TokenKind::Or,
            Token::Xor => TokenKind::Xor,
            Token::Not => TokenKind::Not,
            Token::BitAnd => TokenKind::BitAnd,
            Token::BitOr => TokenKind::BitOr,
            Token::Arrow => TokenKind::Arrow,
            Token::DotDot => TokenKind::DotDot,
            Token::Dot => TokenKind::Dot,
            Token::PlusEq => TokenKind::PlusEq,
            Token::MinusEq => TokenKind::MinusEq,
            Token::StarEq => TokenKind::StarEq,
            Token::SlashEq => TokenKind::SlashEq,
            Token::Increment => TokenKind::Increment,
            Token::Decrement => TokenKind::Decrement,
            Token::LParen => TokenKind::LParen,
            Token::RParen => TokenKind::RParen,
            Token::LBracket => TokenKind::LBracket,
            Token::RBracket => TokenKind::RBracket,
            Token::LBrace => TokenKind::LBrace,
            Token::RBrace => TokenKind::RBrace,
            Token::Comma => TokenKind::Comma,
            Token::Colon => TokenKind::Colon,
            Token::Semi => TokenKind::Semi,
            Token::Pound => TokenKind::Pound,
        }
    }

    /// The text this token carries, if its kind carries any.
    pub fn text(&self) -> (r: Option<&String>)
        ensures
            has_text(self@.kind) <==> r is Some,
            r matches Some(s) ==> s@ == self@.text,
            r is None ==> self@.text == Seq::<char>::empty(),
    {
        match self {
            Token::Number(s) => Some(s),
            Token::StringLiteral(s) => Some(s),
            Token::Ident(s) => Some(s),
            _ => None,
        }
    }

    /// A token of a kind that carries no text.
    pub fn plain(k: TokenKind) -> (t: Token)
        requires
            !has_text(k),
        ensures
            t@ == tk(k),
    {
        match k {
            TokenKind::Eof => Token::Eof,
            TokenKind::Error => Token::Error,
            TokenKind::Fn => Token::Fn,
            TokenKind::Let => Token::Let,
            TokenKind::Mut => Token::Mut,
            TokenKind::Const => Token::Const,
            TokenKind::If => Token::If,
            TokenKind::Else => Token::Else,
            TokenKind::For => Token::For,
            TokenKind::While => Token::While,
            TokenKind::Return => Token::Return,
            TokenKind::Struct => Token::Struct,
            TokenKind::Import => Token::Import,
            TokenKind::As => Token::As,
            TokenKind::Type => Token::Type,
            TokenKind::Trait => Token::Trait,
            TokenKind::Impl => Token::Impl,
            TokenKind::Pub => Token::Pub,
            TokenKind::Mod => Token::Mod,
            TokenKind::Crate => Token::Crate,
            TokenKind::Self_ => Token::Self_,
            TokenKind::Super => Token::Super,
            TokenKind::Use => Token::Use,
            TokenKind::In => Token::In,
            TokenKind::Match => Token::Match,
            TokenKind::Branch => Token::Branch,
            TokenKind::Default => Token::Default,
            TokenKind::Number => Token::Error,
            TokenKind::StringLiteral => Token::Error,
            TokenKind::Ident => Token::Error,
            TokenKind::Plus => Token::Plus,
            TokenKind::Minus => Token::Minus,
            TokenKind::Star => Token::Star,
            TokenKind::Slash => Token::Slash,
            TokenKind::Percent => Token::Percent,
            TokenKind::Assign => Token::Assign,
            TokenKind::EqEq => Token::EqEq,
            TokenKind::BangEq => Token::BangEq,
            TokenKind::Less => Token::Less,
            TokenKind::LessEq => Token::LessEq,
            TokenKind::Greater => Token::Greater,
            TokenKind::GreaterEq => Token::GreaterEq,
            TokenKind::And => Token::And,
            TokenKind::Or => Token::Or,
            TokenKind::Xor => Token::Xor,
            TokenKind::Not => Token::Not,
            TokenKind::BitAnd => Token::BitAnd,
            TokenKind::BitOr => Token::BitOr,
            TokenKind::Arrow => Token::Arrow,
            TokenKind::DotDot => Token::DotDot,
            TokenKind::Dot => Token::Dot,
            TokenKind::PlusEq => Token::PlusEq,
            TokenKind::MinusEq => Token::MinusEq,
            TokenKind::StarEq => Token::StarEq,
            TokenKind::SlashEq => Token::SlashEq,
            TokenKind::Increment => Token::Increment,
            TokenKind::Decrement => Token::Decrement,
            TokenKind::LParen => Token::LParen,
            TokenKind::RParen => Token::RParen,
            TokenKind::LBracket => Token::LBracket,
            TokenKind::RBracket => Token::RBracket,
            TokenKind::LBrace => Token::LBrace,
            TokenKind::RBrace => Token::RBrace,
            TokenKind::Comma => Token::Comma,
            TokenKind::Colon => Token::Colon,
            TokenKind::Semi => Token::Semi,
            TokenKind::Pound => Token::Pound,
        }
    }
}

impl Clone for Token {
    fn clone(&self) -> (r: Self)
        ensures
            r@ == self@,
    {
        match self {
            Token::Number(s) => Token::Number(s.clone()),
            Token::StringLiteral(s) => Token::StringLiteral(s.clone()),
            Token::Ident(s) => Token::Ident(s.clone()),
            _ => Token::plain(self.kind()),
        }
    }
}

/// The name `Debug` prints for a token kind.
pub open spec fn kind_name(k: TokenKind) -> Seq<char> {
    match k {
        TokenKind::Eof => "Eof"@,
        TokenKind::Error => "Error"@,
        TokenKind::Fn => "Fn"@,
        TokenKind::Let => "Let"@,
        TokenKind::Mut => "Mut"@,
        TokenKind::Const => "Const"@,
        TokenKind::If => "If"@,
        TokenKind::Else => "Else"@,
        TokenKind::For => "For"@,
        TokenKind::While => "While"@,
        TokenKind::Return => "Return"@,
        TokenKind::Struct => "Struct"@,
        TokenKind::Import => "Import"@,
        TokenKind::As => "As"@,
        TokenKind::Type => "Type"@,
        TokenKind::Trait => "Trait"@,
        TokenKind::Impl => "Impl"@,
        TokenKind::Pub => "Pub"@,
        TokenKind::Mod => "Mod"@,
        TokenKind::Crate => "Crate"@,
        TokenKind::Self_ => "Self_"@,
        TokenKind::Super => "Super"@,
        TokenKind::Use => "Use"@,
        TokenKind::In => "In"@,
        TokenKind::Match => "Match"@,
        TokenKind::Branch => "Branch"@,
        TokenKind::Default => "Default"@,
        TokenKind::Number => "Number"@,
        TokenKind::StringLiteral => "StringLiteral"@,
        TokenKind::Ident => "Ident"@,
        TokenKind::Plus => "Plus"@,
        TokenKind::Minus => "Minus"@,
        TokenKind::Star => "Star"@,
        TokenKind::Slash => "Slash"@,
        TokenKind::Percent => "Percent"@,
        TokenKind::Assign => "Assign"@,
        TokenKind::EqEq => "EqEq"@,
        TokenKind::BangEq => "BangEq"@,
        TokenKind::Less => "Less"@,
        TokenKind::LessEq => "LessEq"@,
        TokenKind::Greater => "Greater"@,
        TokenKind::GreaterEq => "GreaterEq"@,
        TokenKind::And => "And"@,
        TokenKind::Or => "Or"@,
        TokenKind::Xor => "Xor"@,
        TokenKind::Not => "Not"@,
        TokenKind::BitAnd => "BitAnd"@,
        TokenKind::BitOr => "BitOr"@,
        TokenKind::Arrow => "Arrow"@,
        TokenKind::DotDot => "DotDot"@,
        TokenKind::Dot => "Dot"@,
        TokenKind::PlusEq => "PlusEq"@,
        TokenKind::MinusEq => "MinusEq"@,
        TokenKind::StarEq => "StarEq"@,
        TokenKind::SlashEq => "SlashEq"@,
        TokenKind::Increment => "Increment"@,
        TokenKind::Decrement => "Decrement"@,
        TokenKind::LParen => "LParen"@,
        TokenKind::RParen => "RParen"@,
        TokenKind::LBracket => "LBracket"@,
        TokenKind::RBracket => "RBracket"@,
        TokenKind::LBrace => "LBrace"@,
        TokenKind::RBrace => "RBrace"@,
        TokenKind::Comma => "Comma"@,
        TokenKind::Colon => "Colon"@,
        TokenKind::Semi => "Semi"@,
        TokenKind::Pound => "Pound"@,
    }
}

/// The name `Debug` prints for a token kind, as a string.
pub fn kind_name_text(k: TokenKind) -> (s: String)
    ensures
        s@ == kind_name(k),
{
    match k {
        TokenKind::Eof => text("Eof"),
        TokenKind::Error => text("Error"),
        TokenKind::Fn => text("Fn"),
        TokenKind::Let => text("Let"),
        TokenKind::Mut => text("Mut"),
        TokenKind::Const => text("Const"),
        TokenKind::If => text("If"),
        TokenKind::Else => text("Else"),
        TokenKind::For => text("For"),
        TokenKind::While => text("While"),
        TokenKind::Return => text("Return"),
        TokenKind::Struct => text("Struct"),
        TokenKind::Import => text("Import"),
        TokenKind::As => text("As"),
        TokenKind::Type => text("Type"),
        TokenKind::Trait => text("Trait"),
        TokenKind::Impl => text("Impl"),
        TokenKind::Pub => text("Pub"),
        TokenKind::Mod => text("Mod"),
        TokenKind::Crate => text("Crate"),
        TokenKind::Self_ => text("Self_"),
        TokenKind::Super => text("Super"),
        TokenKind::Use => text("Use"),
        TokenKind::In => text("In"),
        TokenKind::Match => text("Match"),
        TokenKind::Branch => text("Branch"),
        TokenKind::Default => text("Default"),
        TokenKind::Number => text("Number"),
        TokenKind::StringLiteral => text("StringLiteral"),
        TokenKind::Ident => text("Ident"),
        TokenKind::Plus => text("Plus"),
        TokenKind::Minus => text("Minus"),
        TokenKind::Star => text("Star"),
        TokenKind::Slash => text("Slash"),
        TokenKind::Percent => text("Percent"),
        TokenKind::Assign => text("Assign"),
        TokenKind::EqEq => text("EqEq"),
        TokenKind::BangEq => text("BangEq"),
        TokenKind::Less => text("Less"),
        TokenKind::LessEq => text("LessEq"),
        TokenKind::Greater => text("Greater"),
        TokenKind::GreaterEq => text("GreaterEq"),
        TokenKind::And => text("And"),
        TokenKind::Or => text("Or"),
        TokenKind::Xor => text("Xor"),
        TokenKind::Not => text("Not"),
        TokenKind::BitAnd => text("BitAnd"),
        TokenKind::BitOr => text("BitOr"),
        TokenKind::Arrow => text("Arrow"),
        TokenKind::DotDot => text("DotDot"),
        TokenKind::Dot => text("Dot"),
        TokenKind::PlusEq => text("PlusEq"),
        TokenKind::MinusEq => text("MinusEq"),
        TokenKind::StarEq => text("StarEq"),
        TokenKind::SlashEq => text("SlashEq"),
        TokenKind::Increment => text("Increment"),
        TokenKind::Decrement => text("Decrement"),
        TokenKind::LParen => text("LParen"),
        TokenKind::RParen => text("RParen"),
        TokenKind::LBracket => text("LBracket"),
        TokenKind::RBracket => text("RBracket"),
        TokenKind::LBrace => text("LBrace"),
        TokenKind::RBrace => text("RBrace"),
        TokenKind::Comma => text("Comma"),
        TokenKind::Colon => text("Colon"),
        TokenKind::Semi => text("Semi"),
        TokenKind::Pound => text("Pound"),
    }
}

/// The keyword a word spells, if it spells one.
pub open spec fn keyword_kind(word: Seq<char>) -> Option<TokenKind> {
    if word == "fn"@ {
        Some(TokenKind::Fn)
    } else if word == "let"@ {
        Some(TokenKind::Let)
    } else if word == "mut"@ {
        Some(TokenKind::Mut)
    } else if word == "const"@ {
        Some(TokenKind::Const)
    } else if word == "if"@ {
        Some(TokenKind::If)
    } else if word == "else"@ {
        Some(TokenKind::Else)
    } else if word == "for"@ {
        Some(TokenKind::For)
    } else if word == "while"@ {
        Some(TokenKind::While)
    } else if word == "return"@ {
        Some(TokenKind::Return)
    } else if word == "struct"@ {
        Some(TokenKind::Struct)
    } else if word == "import"@ {
        Some(TokenKind::Import)
    } else if word == "as"@ {
        Some(TokenKind::As)
    } else if word == "type"@ {
        Some(TokenKind::Type)
    } else if word == "trait"@ {
        Some(TokenKind::Trait)
    } else if word == "impl"@ {
        Some(TokenKind::Impl)
    } else if word == "pub"@ {
        Some(TokenKind::Pub)
    } else if word == "mod"@ {
        Some(TokenKind::Mod)
    } else if word == "crate"@ {
        Some(TokenKind::Crate)
    } else if word == "self"@ {
        Some(TokenKind::Self_)
    } else if word == "super"@ {
        Some(TokenKind::Super)
    } else if word == "use"@ {
        Some(TokenKind::Use)
    } else if word == "in"@ {
        Some(TokenKind::In)
    } else if word == "match"@ {
        Some(TokenKind::Match)
    } else if word == "branch"@ {
        Some(TokenKind::Branch)
    } else if word == "default"@ {
        Some(TokenKind::Default)
    } else {
        None
    }
}

fn keyword(word: &String) -> (r: Option<TokenKind>)
    ensures
        r == keyword_kind(word@),
{
    if *word == text("fn") {
        Some(TokenKind::Fn)
    } else if *word == text("let") {
        Some(TokenKind::Let)
    } else if *word == text("mut") {
        Some(TokenKind::Mut)
    } else if *word == text("const") {
        Some(TokenKind::Const)
    } else if *word == text("if") {
        Some(TokenKind::If)
    } else if *word == text("else") {
        Some(TokenKind::Else)
    } else if *word == text("for") {
        Some(TokenKind::For)
    } else if *word == text("while") {
        Some(TokenKind::While)
    } else if *word == text("return") {
        Some(TokenKind::Return)
    } else if *word == text("struct") {
        Some(TokenKind::Struct)
    } else if *word == text("import") {
        Some(TokenKind::Import)
    } else if *word == text("as") {
        Some(TokenKind::As)
    } else if *word == text("type") {
        Some(TokenKind::Type)
    } else if *word == text("trait") {
        Some(TokenKind::Trait)
    } else if *word == text("impl") {
        Some(TokenKind::Impl)
    } else if *word == text("pub") {
        Some(TokenKind::Pub)
    } else if *word == text("mod") {
        Some(TokenKind::Mod)
    } else if *word == text("crate") {
        Some(TokenKind::Crate)
    } else if *word == text("self") {
        Some(TokenKind::Self_)
    } else if *word == text("super") {
        Some(TokenKind::Super)
    } else if *word == text("use") {
        Some(TokenKind::Use)
    } else if *word == text("in") {
        Some(TokenKind::In)
    } else if *word == text("match") {
        Some(TokenKind::Match)
    } else if *word == text("branch") {
        Some(TokenKind::Branch)
    } else if *word == text("default") {
        Some(TokenKind::Default)
    } else {
        None
    }
}

/// A token with the byte span the lexer's counter recorded for it, and the
/// line and column (both counted from 1, columns in characters) of its
/// first character.
#[derive(Debug)]
pub struct SpannedToken {
    pub token: Token,
    pub span: (usize, usize),
    pub line: usize,
    pub column: usize,
}

impl View for SpannedToken {
    type V = (TokenView, int, int);

    open spec fn view(&self) -> (TokenView, int, int) {
        (self.token@, self.span.0 as int, self.span.1 as int)
    }
}

impl Clone for SpannedToken {
    fn clone(&self) -> (r: Self)
        ensures
            r@ == self@,
        r.line == self.line,
        r.column == self.column,
    {
        SpannedToken { token: self.token.clone(), span: self.span, line: self.line, column: self.column }
    }
}

/// Views of a sequence of spanned tokens.
pub open spec fn spanned_views(ts: Seq<SpannedToken>) -> Seq<(TokenView, int, int)> {
    ts.map_values(|t: SpannedToken| t@)
}

/// The lines and columns of a sequence of spanned tokens.
pub open spec fn token_locs(ts: Seq<SpannedToken>) -> Seq<(int, int)> {
    ts.map_values(|t: SpannedToken| (t.line as int, t.column as int))
}

/// One lexing step: the token found, the index of the next unread
/// character, and the byte counter after it.
pub struct Lexed {
    pub tok: TokenView,
    pub idx: int,
    pub pos: int,
}

/// Whether character `i` of `cs` exists and is `c`.
pub open spec fn next_is(cs: Seq<char>, i: int, c: char) -> bool {
    0 <= i < cs.len() && cs[i] == c
}

/// Index of the first non-digit at or after `i`.
pub open spec fn digits_end(cs: Seq<char>, i: int) -> int
    decreases cs.len() - i,
{
    if 0 <= i < cs.len() && is_digit(cs[i]) {
        digits_end(cs, i + 1)
    } else {
        i
    }
}

/// Index of the first character at or after `i` that cannot continue a word.
pub open spec fn word_end(cs: Seq<char>, i: int) -> int
    decreases cs.len() - i,
{
    if 0 <= i < cs.len() && is_word(cs[i]) {
        word_end(cs, i + 1)
    } else {
        i
    }
}

/// The character an escape sequence `\e` stands for inside a string literal.
pub open spec fn unescape(e: char) -> char {
    if e == 'n' {
        '\n'
    } else if e == 't' {
        '\t'
    } else if e == 'r' {
        '\r'
    } else {
        e
    }
}

/// A number literal whose first digit was read just before index `i`
/// (with the counter at `p` before that digit). A `.` after the digits is
/// taken as a decimal point unless the character after it is a second `.`,
/// so that `1.5` is one literal and `1..5` a range.
pub open spec fn lex_number(cs: Seq<char>, i: int, p: int) -> Lexed {
    let j = digits_end(cs, i);
    let p1 = p + 1 + (j - i);
    if next_is(cs, j, '.') && !next_is(cs, j + 1, '.') {
        let k = digits_end(cs, j + 1);
        Lexed {
            tok: TokenView { kind: TokenKind::Number, text: cs.subrange(i - 1, k) },
            idx: k,
            pos: p1 + 1 + (k - j - 1),
        }
    } else {
        Lexed { tok: TokenView { kind: TokenKind::Number, text: cs.subrange(i - 1, j) }, idx: j, pos: p1 }
    }
}

/// The rest of a string literal from index `i`, with `acc` read so far.
pub open spec fn lex_string(cs: Seq<char>, i: int, p: int, acc: Seq<char>) -> Lexed
    decreases cs.len() - i,
{
    if !(0 <= i < cs.len()) {
        Lexed { tok: TokenView { kind: TokenKind::StringLiteral, text: acc }, idx: i, pos: p }
    } else {
        let ch = cs[i];
        let p1 = p + utf8_width(ch);
        if ch == '"' {
            Lexed { tok: TokenView { kind: TokenKind::StringLiteral, text: acc }, idx: i + 1, pos: p1 }
        } else if ch == '\\' {
            if i + 1 < cs.len() {
                let e = cs[i + 1];
                lex_string(cs, i + 2, p1 + utf8_width(e), acc.push(unescape(e)))
            } else {
                lex_string(cs, i + 1, p1, acc)
            }
        } else {
            lex_string(cs, i + 1, p1, acc.push(ch))
        }
    }
}

/// A word (identifier or keyword) whose first character was read just
/// before index `i`.
pub open spec fn lex_word(cs: Seq<char>, i: int, p: int) -> Lexed {
    let j = word_end(cs, i);
    let word = cs.subrange(i - 1, j);
    Lexed {
        tok: match keyword_kind(word) {
            Some(k) => tk(k),
            None => TokenView { kind: TokenKind::Ident, text: word },
        },
        idx: j,
        pos: p + 1 + (j - i),
    }
}

/// A one-character token.
pub open spec fn single(k: TokenKind, i: int, p: int) -> Lexed {
    Lexed { tok: tk(k), idx: i, pos: p + 1 }
}

/// A token of one character, or of two when the next character is `second`.
pub open spec fn pair(cs: Seq<char>, i: int, p: int, second: char, two: TokenKind, one: TokenKind) -> Lexed {
    if next_is(cs, i, second) {
        Lexed { tok: tk(two), idx: i + 1, pos: p + 2 }
    } else {
        single(one, i, p)
    }
}

/// The token that starts with character `c`, which was read just before
/// index `i` with the counter at `p`.
pub open spec fn lex_char(cs: Seq<char>, c: char, i: int, p: int) -> Lexed {
    if c == '(' {
        single(TokenKind::LParen, i, p)
    } else if c == ')' {
        single(TokenKind::RParen, i, p)
    } else if c == '[' {
        single(TokenKind::LBracket, i, p)
    } else if c == ']' {
        single(TokenKind::RBracket, i, p)
    } else if c == '{' {
        single(TokenKind::LBrace, i, p)
    } else if c == '}' {
        single(TokenKind::RBrace, i, p)
    } else if c == ',' {
        single(TokenKind::Comma, i, p)
    } else if c == ':' {
        pair(cs, i, p, '>', TokenKind::Arrow, TokenKind::Colon)
    } else if c == ';' {
        single(TokenKind::Semi, i, p)
    } else if c == '#' {
        single(TokenKind::Pound, i, p)
    } else if c == '+' {
        if next_is(cs, i, '=') {
            Lexed { tok: tk(TokenKind::PlusEq), idx: i + 1, pos: p + 2 }
        } else {
            pair(cs, i, p, '+', TokenKind::Increment, TokenKind::Plus)
        }
    } else if c == '-' {
        if next_is(cs, i, '>') {
            Lexed { tok: tk(TokenKind::Arrow), idx: i + 1, pos: p + 2 }
        } else if next_is(cs, i, '=') {
            Lexed { tok: tk(TokenKind::MinusEq), idx: i + 1, pos: p + 2 }
        } else {
            pair(cs, i, p, '-', TokenKind::Decrement, TokenKind::Minus)
        }
    } else if c == '*' {
        pair(cs, i, p, '=', TokenKind::StarEq, TokenKind::Star)
    } else if c == '/' {
        pair(cs, i, p, '=', TokenKind::SlashEq, TokenKind::Slash)
    } else if c == '%' {
        single(TokenKind::Percent, i, p)
    } else if c == '=' {
        pair(cs, i, p, '=', TokenKind::EqEq, TokenKind::Assign)
    } else if c == '!' {
        pair(cs, i, p, '=', TokenKind::BangEq, TokenKind::Not)
    } else if c == '<' {
        pair(cs, i, p, '=', TokenKind::LessEq, TokenKind::Less)
    } else if c == '>' {
        pair(cs, i, p, '=', TokenKind::GreaterEq, TokenKind::Greater)
    } else if c == '&' {
        pair(cs, i, p, '&', TokenKind::And, TokenKind::BitAnd)
    } else if c == '|' {
        pair(cs, i, p, '|', TokenKind::Or, TokenKind::BitOr)
    } else if c == '^' {
        single(TokenKind::Xor, i, p)
    } else if c == '.' {
        pair(cs, i, p, '.', TokenKind::DotDot, TokenKind::Dot)
    } else if is_digit(c) {
        lex_number(cs, i, p)
    } else if c == '"' {
        lex_string(cs, i, p + 1, Seq::empty())
    } else if is_alpha(c) || c == '_' {
        lex_word(cs, i, p)
    } else {
        single(TokenKind::Error, i, p)
    }
}

/// The next token from index `i` with the counter at `p`: whitespace and
/// `//` comments (up to and including the line break) are skipped first.
/// `in_comment` says whether a comment is being skipped.
pub open spec fn lex_next(cs: Seq<char>, i: int, p: int, in_comment: bool) -> Lexed
    decreases cs.len() - i,
{
    if !(0 <= i < cs.len()) {
        Lexed { tok: tk(TokenKind::Eof), idx: i, pos: p }
    } else {
        let c = cs[i];
        if in_comment {
            lex_next(cs, i + 1, p + utf8_width(c), c != '\n')
        } else if is_ws(c) {
            lex_next(cs, i + 1, p + utf8_width(c), false)
        } else if c == '/' && next_is(cs, i + 1, '/') {
            lex_next(cs, i + 2, p + 2, true)
        } else {
            lex_char(cs, c, i + 1, p)
        }
    }
}

/// All tokens from index `i` on, each with its span: up to and including
/// the first `Eof`.
pub open spec fn lex_from(cs: Seq<char>, i: int, p: int) -> Seq<(TokenView, int, int)>
    decreases cs.len() - i,
    via lex_from_decreases
{
    if 0 <= i <= cs.len() {
        let r = lex_next(cs, i, p, false);
        if r.tok.kind == TokenKind::Eof {
            seq![(r.tok, p, r.pos)]
        } else {
            seq![(r.tok, p, r.pos)] + lex_from(cs, r.idx, r.pos)
        }
    } else {
        seq![(tk(TokenKind::Eof), p, p)]
    }
}

#[via_fn]
proof fn lex_from_decreases(cs: Seq<char>, i: int, p: int) {
    if 0 <= i <= cs.len() {
        lemma_lex_next_progress(cs, i, p, false);
    }
}

/// What `tokenize` produces for a string with characters `cs`.
pub open spec fn lex(cs: Seq<char>) -> Seq<(TokenView, int, int)> {
    lex_from(cs, 0, 0)
}

/// Index of the character where the next token starts, from index `i`:
/// the whitespace and `//` comments that [`lex_next`] skips are passed over.
pub open spec fn token_start(cs: Seq<char>, i: int, in_comment: bool) -> int
    decreases cs.len() - i,
{
    if !(0 <= i < cs.len()) {
        i
    } else {
        let c = cs[i];
        if in_comment {
            token_start(cs, i + 1, c != '\n')
        } else if is_ws(c) {
            token_start(cs, i + 1, false)
        } else if c == '/' && next_is(cs, i + 1, '/') {
            token_start(cs, i + 2, true)
        } else {
            i
        }
    }
}

/// The line and the column, both counted from 1, of the character at index
/// `k`: a line break ends a line, and columns count characters.
pub open spec fn line_col(cs: Seq<char>, k: int) -> (int, int)
    decreases k,
{
    if k <= 0 {
        (1, 1)
    } else {
        let prev = line_col(cs, k - 1);
        if cs[k - 1] == '\n' {
            (prev.0 + 1, 1)
        } else {
            (prev.0, prev.1 + 1)
        }
    }
}

/// The line and column where each token from index `i` on starts, as
/// [`lex_from`] reads the tokens.
pub open spec fn locs_from(cs: Seq<char>, i: int, p: int) -> Seq<(int, int)>
    decreases cs.len() - i,
    via locs_from_decreases
{
    if 0 <= i <= cs.len() {
        let r = lex_next(cs, i, p, false);
        let here = line_col(cs, token_start(cs, i, false));
        if r.tok.kind == TokenKind::Eof {
            seq![here]
        } else {
            seq![here] + locs_from(cs, r.idx, r.pos)
        }
    } else {
        seq![line_col(cs, i)]
    }
}

#[via_fn]
proof fn locs_from_decreases(cs: Seq<char>, i: int, p: int) {
    if 0 <= i <= cs.len() {
        lemma_lex_next_progress(cs, i, p, false);
    }
}

/// Where the tokens of a string with characters `cs` start.
pub open spec fn lex_locs(cs: Seq<char>) -> Seq<(int, int)> {
    locs_from(cs, 0, 0)
}

/// The start of the next token lies between `i` and the index that
/// [`lex_next`] reaches.
proof fn lemma_token_start(cs: Seq<char>, i: int, p: int, in_comment: bool)
    requires
        0 <= i <= cs.len(),
    ensures
        i <= token_start(cs, i, in_comment) <= cs.len(),
        token_start(cs, i, in_comment) <= lex_next(cs, i, p, in_comment).idx,
    decreases cs.len() - i,
{
    if i < cs.len() {
        let c = cs[i];
        if in_comment {
            lemma_token_start(cs, i + 1, p + utf8_width(c), c != '\n');
        } else if is_ws(c) {
            lemma_token_start(cs, i + 1, p + utf8_width(c), false);
        } else if c == '/' && next_is(cs, i + 1, '/') {
            lemma_token_start(cs, i + 2, p + 2, true);
        } else {
            lemma_lex_char_progress(cs, c, i + 1, p);
        }
    }
}

/// A name in lower case, without underscores: `Self_` becomes `self`.
pub open spec fn lower_name(n: Seq<char>) -> Seq<char>
    decreases n.len(),
{
    if n.len() == 0 {
        n
    } else {
        let rest = lower_name(n.drop_last());
        let c = n.last();
        if c == '_' {
            rest
        } else if 'A' <= c && c <= 'Z' {
            rest.push(((c as u32) + 32) as char)
        } else {
            rest.push(c)
        }
    }
}

/// A keyword is the lower-case spelling of the name its token prints
/// (`while` reads as the token `While`, `self` as `Self_`): no keyword
/// reads as another keyword's token.
pub proof fn lemma_keyword_spelling(w: Seq<char>)
    requires
        keyword_kind(w) is Some,
    ensures
        lower_name(kind_name(keyword_kind(w)->Some_0)) == w,
{
    reveal_strlit("fn");
    reveal_strlit("let");
    reveal_strlit("mut");
    reveal_strlit("const");
    reveal_strlit("if");
    reveal_strlit("else");
    reveal_strlit("for");
    reveal_strlit("while");
    reveal_strlit("return");
    reveal_strlit("struct");
    reveal_strlit("import");
    reveal_strlit("as");
    reveal_strlit("type");
    reveal_strlit("trait");
    reveal_strlit("impl");
    reveal_strlit("pub");
    reveal_strlit("mod");
    reveal_strlit("crate");
    reveal_strlit("self");
    reveal_strlit("super");
    reveal_strlit("use");
    reveal_strlit("in");
    reveal_strlit("match");
    reveal_strlit("branch");
    reveal_strlit("default");
    assert("fn"@.len() == 2);
    assert("let"@.len() == 3);
    assert("mut"@.len() == 3);
    assert("const"@.len() == 5);
    assert("if"@.len() == 2);
    assert("else"@.len() == 4);
    assert("for"@.len() == 3);
    assert("while"@.len() == 5);
    assert("return"@.len() == 6);
    assert("struct"@.len() == 6);
    assert("import"@.len() == 6);
    assert("as"@.len() == 2);
    assert("type"@.len() == 4);
    assert("trait"@.len() == 5);
    assert("impl"@.len() == 4);
    assert("pub"@.len() == 3);
    assert("mod"@.len() == 3);
    assert("crate"@.len() == 5);
    assert("self"@.len() == 4);
    assert("super"@.len() == 5);
    assert("use"@.len() == 3);
    assert("in"@.len() == 2);
    assert("match"@.len() == 5);
    assert("branch"@.len() == 6);
    assert("default"@.len() == 7);
    if w == "fn"@ {
        assert("fn"@[0] != "if"@[0]);
        assert("fn"@[0] != "as"@[0]);
        assert("fn"@[0] != "in"@[0]);
        assert(keyword_kind(w) == Some(TokenKind::Fn));
        lemma_lower_name_fn();
    }
    if w == "let"@ {
        assert("let"@[0] != "mut"@[0]);
        assert("let"@[0] != "for"@[0]);
        assert("let"@[0] != "pub"@[0]);
        assert("let"@[0] != "mod"@[0]);
        assert("let"@[0] != "use"@[0]);
        assert(keyword_kind(w) == Some(TokenKind::Let));
        lemma_lower_name_let();
    }
    if w == "mut"@ {
        assert("mut"@[0] != "let"@[0]);
        assert("mut"@[0] != "for"@[0]);
        assert("mut"@[0] != "pub"@[0]);
        assert("mut"@[1] != "mod"@[1]);
        assert("mut"@[0] != "use"@[0]);
        assert(keyword_kind(w) == Some(TokenKind::Mut));
        lemma_lower_name_mut();
    }
    if w == "const"@ {
        assert("const"@[0] != "while"@[0]);
        assert("const"@[0] != "trait"@[0]);
        assert("const"@[1] != "crate"@[1]);
        assert("const"@[0] != "super"@[0]);
        assert("const"@[0] != "match"@[0]);
        assert(keyword_kind(w) == Some(TokenKind::Const));
        lemma_lower_name_const();
    }
    if w == "if"@ {
        assert("if"@[0] != "fn"@[0]);
        assert("if"@[0] != "as"@[0]);
        assert("if"@[1] != "in"@[1]);
        assert(keyword_kind(w) == Some(TokenKind::If));
        lemma_lower_name_if();
    }
    if w == "else"@ {
        assert("else"@[0] != "type"@[0]);
        assert("else"@[0] != "impl"@[0]);
        assert("else"@[0] != "self"@[0]);
        assert(keyword_kind(w) == Some(TokenKind::Else));
        lemma_lower_name_else();
    }
    if w == "for"@ {
        assert("for"@[0] != "let"@[0]);
        assert("for"@[0] != "mut"@[0]);
        assert("for"@[0] != "pub"@[0]);
        assert("for"@[0] != "mod"@[0]);
        assert("for"@[0] != "use"@[0]);
        assert(keyword_kind(w) == Some(TokenKind::For));
        lemma_lower_name_for();
    }
    if w == "while"@ {
        assert("while"@[0] != "const"@[0]);
        assert("while"@[0] != "trait"@[0]);
        assert("while"@[0] != "crate"@[0]);
        assert("while"@[0] != "super"@[0]);
        assert("while"@[0] != "match"@[0]);
        assert(keyword_kind(w) == Some(TokenKind::While));
        lemma_lower_name_while();
    }
    if w == "return"@ {
        assert("return"@[0] != "struct"@[0]);
        assert("return"@[0] != "import"@[0]);
        assert("return"@[0] != "branch"@[0]);
        assert(keyword_kind(w) == Some(TokenKind::Return));
        lemma_lower_name_return();
    }
    if w == "struct"@ {
        assert("struct"@[0] != "return"@[0]);
        assert("struct"@[0] != "import"@[0]);
        assert("struct"@[0] != "branch"@[0]);
        assert(keyword_kind(w) == Some(TokenKind::Struct));
        lemma_lower_name_struct();
    }
    if w == "import"@ {
        assert("import"@[0] != "return"@[0]);
        assert("import"@[0] != "struct"@[0]);
        assert("import"@[0] != "branch"@[0]);
        assert(keyword_kind(w) == Some(TokenKind::Import));
        lemma_lower_name_import();
    }
    if w == "as"@ {
        assert("as"@[0] != "fn"@[0]);
        assert("as"@[0] != "if"@[0]);
        assert("as"@[0] != "in"@[0]);
        assert(keyword_kind(w) == Some(TokenKind::As));
        lemma_lower_name_as();
    }
    if w == "type"@ {
        assert("type"@[0] != "else"@[0]);
        assert("type"@[0] != "impl"@[0]);
        assert("type"@[0] != "self"@[0]);
        assert(keyword_kind(w) == Some(TokenKind::Type));
        lemma_lower_name_type();
    }
    if w == "trait"@ {
        assert("trait"@[0] != "const"@[0]);
        assert("trait"@[0] != "while"@[0]);
        assert("trait"@[0] != "crate"@[0]);
        assert("trait"@[0] != "super"@[0]);
        assert("trait"@[0] != "match"@[0]);
        assert(keyword_kind(w) == Some(TokenKind::Trait));
        lemma_lower_name_trait();
    }
    if w == "impl"@ {
        assert("impl"@[0] != "else"@[0]);
        assert("impl"@[0] != "type"@[0]);
        assert("impl"@[0] != "self"@[0]);
        assert(keyword_kind(w) == Some(TokenKind::Impl));
        lemma_lower_name_impl();
    }
    if w == "pub"@ {
        assert("pub"@[0] != "let"@[0]);
        assert("pub"@[0] != "mut"@[0]);
        assert("pub"@[0] != "for"@[0]);
        assert("pub"@[0] != "mod"@[0]);
        assert("pub"@[0] != "use"@[0]);
        assert(keyword_kind(w) == Some(TokenKind::Pub));
        lemma_lower_name_pub();
    }
    if w == "mod"@ {
        assert("mod"@[0] != "let"@[0]);
        assert("mod"@[1] != "mut"@[1]);
        assert("mod"@[0] != "for"@[0]);
        assert("mod"@[0] != "pub"@[0]);
        assert("mod"@[0] != "use"@[0]);
        assert(keyword_kind(w) == Some(TokenKind::Mod));
        lemma_lower_name_mod();
    }
    if w == "crate"@ {
        assert("crate"@[1] != "const"@[1]);
        assert("crate"@[0] != "while"@[0]);
        assert("crate"@[0] != "trait"@[0]);
        assert("crate"@[0] != "super"@[0]);
        assert("crate"@[0] != "match"@[0]);
        assert(keyword_kind(w) == Some(TokenKind::Crate));
        lemma_lower_name_crate();
    }
    if w == "self"@ {
        assert("self"@[0] != "else"@[0]);
        assert("self"@[0] != "type"@[0]);
        assert("self"@[0] != "impl"@[0]);
        assert(keyword_kind(w) == Some(TokenKind::Self_));
        lemma_lower_name_self();
    }
    if w == "super"@ {
        assert("super"@[0] != "const"@[0]);
        assert("super"@[0] != "while"@[0]);
        assert("super"@[0] != "trait"@[0]);
        assert("super"@[0] != "crate"@[0]);
        assert("super"@[0] != "match"@[0]);
        assert(keyword_kind(w) == Some(TokenKind::Super));
        lemma_lower_name_super();
    }
    if w == "use"@ {
        assert("use"@[0] != "let"@[0]);
        assert("use"@[0] != "mut"@[0]);
        assert("use"@[0] != "for"@[0]);
        assert("use"@[0] != "pub"@[0]);
        assert("use"@[0] != "mod"@[0]);
        assert(keyword_kind(w) == Some(TokenKind::Use));
        lemma_lower_name_use();
    }
    if w == "in"@ {
        assert("in"@[0] != "fn"@[0]);
        assert("in"@[1] != "if"@[1]);
        assert("in"@[0] != "as"@[0]);
        assert(keyword_kind(w) == Some(TokenKind::In));
        lemma_lower_name_in();
    }
    if w == "match"@ {
        assert("match"@[0] != "const"@[0]);
        assert("match"@[0] != "while"@[0]);
        assert("match"@[0] != "trait"@[0]);
        assert("match"@[0] != "crate"@[0]);
        assert("match"@[0] != "super"@[0]);
        assert(keyword_kind(w) == Some(TokenKind::Match));
        lemma_lower_name_match();
    }
    if w == "branch"@ {
        assert("branch"@[0] != "return"@[0]);
        assert("branch"@[0] != "struct"@[0]);
        assert("branch"@[0] != "import"@[0]);
        assert(keyword_kind(w) == Some(TokenKind::Branch));
        lemma_lower_name_branch();
    }
    if w == "default"@ {
        assert(keyword_kind(w) == Some(TokenKind::Default));
        lemma_lower_name_default();
    }
}

proof fn lemma_lower_name_fn()
    ensures
        lower_name(kind_name(TokenKind::Fn)) == "fn"@,
{
    reveal_strlit("fn");
    reveal_strlit("Fn");
    reveal_with_fuel(lower_name, 8);
    assert(lower_name(kind_name(TokenKind::Fn)) =~= "fn"@);
}

proof fn lemma_lower_name_let()
    ensures
        lower_name(kind_name(TokenKind::Let)) == "let"@,
{
    reveal_strlit("let");
    reveal_strlit("Let");
    reveal_with_fuel(lower_name, 8);
    assert(lower_name(kind_name(TokenKind::Let)) =~= "let"@);
}

proof fn lemma_lower_name_mut()
    ensures
        lower_name(kind_name(TokenKind::Mut)) == "mut"@,
{
    reveal_strlit("mut");
    reveal_strlit("Mut");
    reveal_with_fuel(lower_name, 8);
    assert(lower_name(kind_name(TokenKind::Mut)) =~= "mut"@);
}

proof fn lemma_lower_name_const()
    ensures
        lower_name(kind_name(TokenKind::Const)) == "const"@,
{
    reveal_strlit("const");
    reveal_strlit("Const");
    reveal_with_fuel(lower_name, 8);
    assert(lower_name(kind_name(TokenKind::Const)) =~= "const"@);
}

proof fn lemma_lower_name_if()
    ensures
        lower_name(kind_name(TokenKind::If)) == "if"@,
{
    reveal_strlit("if");
    reveal_strlit("If");
    reveal_with_fuel(lower_name, 8);
    assert(lower_name(kind_name(TokenKind::If)) =~= "if"@);
}

proof fn lemma_lower_name_else()
    ensures
        lower_name(kind_name(TokenKind::Else)) == "else"@,
{
    reveal_strlit("else");
    reveal_strlit("Else");
    reveal_with_fuel(lower_name, 8);
    assert(lower_name(kind_name(TokenKind::Else)) =~= "else"@);
}

proof fn lemma_lower_name_for()
    ensures
        lower_name(kind_name(TokenKind::For)) == "for"@,
{
    reveal_strlit("for");
    reveal_strlit("For");
    reveal_with_fuel(lower_name, 8);
    assert(lower_name(kind_name(TokenKind::For)) =~= "for"@);
}

proof fn lemma_lower_name_while()
    ensures
        lower_name(kind_name(TokenKind::While)) == "while"@,
{
    reveal_strlit("while");
    reveal_strlit("While");
    reveal_with_fuel(lower_name, 8);
    assert(lower_name(kind_name(TokenKind::While)) =~= "while"@);
}

proof fn lemma_lower_name_return()
    ensures
        lower_name(kind_name(TokenKind::Return)) == "return"@,
{
    reveal_strlit("return");
    reveal_strlit("Return");
    reveal_with_fuel(lower_name, 8);
    assert(lower_name(kind_name(TokenKind::Return)) =~= "return"@);
}

proof fn lemma_lower_name_struct()
    ensures
        lower_name(kind_name(TokenKind::Struct)) == "struct"@,
{
    reveal_strlit("struct");
    reveal_strlit("Struct");
    reveal_with_fuel(lower_name, 8);
    assert(lower_name(kind_name(TokenKind::Struct)) =~= "struct"@);
}

proof fn lemma_lower_name_import()
    ensures
        lower_name(kind_name(TokenKind::Import)) == "import"@,
{
    reveal_strlit("import");
    reveal_strlit("Import");
    reveal_with_fuel(lower_name, 8);
    assert(lower_name(kind_name(TokenKind::Import)) =~= "import"@);
}

proof fn lemma_lower_name_as()
    ensures
        lower_name(kind_name(TokenKind::As)) == "as"@,
{
    reveal_strlit("as");
    reveal_strlit("As");
    reveal_with_fuel(lower_name, 8);
    assert(lower_name(kind_name(TokenKind::As)) =~= "as"@);
}

proof fn lemma_lower_name_type()
    ensures
        lower_name(kind_name(TokenKind::Type)) == "type"@,
{
    reveal_strlit("type");
    reveal_strlit("Type");
    reveal_with_fuel(lower_name, 8);
    assert(lower_name(kind_name(TokenKind::Type)) =~= "type"@);
}

proof fn lemma_lower_name_trait()
    ensures
        lower_name(kind_name(TokenKind::Trait)) == "trait"@,
{
    reveal_strlit("trait");
    reveal_strlit("Trait");
    reveal_with_fuel(lower_name, 8);
    assert(lower_name(kind_name(TokenKind::Trait)) =~= "trait"@);
}

proof fn lemma_lower_name_impl()
    ensures
        lower_name(kind_name(TokenKind::Impl)) == "impl"@,
{
    reveal_strlit("impl");
    reveal_strlit("Impl");
    reveal_with_fuel(lower_name, 8);
    assert(lower_name(kind_name(TokenKind::Impl)) =~= "impl"@);
}

proof fn lemma_lower_name_pub()
    ensures
        lower_name(kind_name(TokenKind::Pub)) == "pub"@,
{
    reveal_strlit("pub");
    reveal_strlit("Pub");
    reveal_with_fuel(lower_name, 8);
    assert(lower_name(kind_name(TokenKind::Pub)) =~= "pub"@);
}

proof fn lemma_lower_name_mod()
    ensures
        lower_name(kind_name(TokenKind::Mod)) == "mod"@,
{
    reveal_strlit("mod");
    reveal_strlit("Mod");
    reveal_with_fuel(lower_name, 8);
    assert(lower_name(kind_name(TokenKind::Mod)) =~= "mod"@);
}

proof fn lemma_lower_name_crate()
    ensures
        lower_name(kind_name(TokenKind::Crate)) == "crate"@,
{
    reveal_strlit("crate");
    reveal_strlit("Crate");
    reveal_with_fuel(lower_name, 8);
    assert(lower_name(kind_name(TokenKind::Crate)) =~= "crate"@);
}

proof fn lemma_lower_name_self()
    ensures
        lower_name(kind_name(TokenKind::Self_)) == "self"@,
{
    reveal_strlit("self");
    reveal_strlit("Self_");
    reveal_with_fuel(lower_name, 8);
    assert(lower_name(kind_name(TokenKind::Self_)) =~= "self"@);
}

proof fn lemma_lower_name_super()
    ensures
        lower_name(kind_name(TokenKind::Super)) == "super"@,
{
    reveal_strlit("super");
    reveal_strlit("Super");
    reveal_with_fuel(lower_name, 8);
    assert(lower_name(kind_name(TokenKind::Super)) =~= "super"@);
}

proof fn lemma_lower_name_use()
    ensures
        lower_name(kind_name(TokenKind::Use)) == "use"@,
{
    reveal_strlit("use");
    reveal_strlit("Use");
    reveal_with_fuel(lower_name, 8);
    assert(lower_name(kind_name(TokenKind::Use)) =~= "use"@);
}

proof fn lemma_lower_name_in()
    ensures
        lower_name(kind_name(TokenKind::In)) == "in"@,
{
    reveal_strlit("in");
    reveal_strlit("In");
    reveal_with_fuel(lower_name, 8);
    assert(lower_name(kind_name(TokenKind::In)) =~= "in"@);
}

proof fn lemma_lower_name_match()
    ensures
        lower_name(kind_name(TokenKind::Match)) == "match"@,
{
    reveal_strlit("match");
    reveal_strlit("Match");
    reveal_with_fuel(lower_name, 8);
    assert(lower_name(kind_name(TokenKind::Match)) =~= "match"@);
}

proof fn lemma_lower_name_branch()
    ensures
        lower_name(kind_name(TokenKind::Branch)) == "branch"@,
{
    reveal_strlit("branch");
    reveal_strlit("Branch");
    reveal_with_fuel(lower_name, 8);
    assert(lower_name(kind_name(TokenKind::Branch)) =~= "branch"@);
}

proof fn lemma_lower_name_default()
    ensures
        lower_name(kind_name(TokenKind::Default)) == "default"@,
{
    reveal_strlit("default");
    reveal_strlit("Default");
    reveal_with_fuel(lower_name, 8);
    assert(lower_name(kind_name(TokenKind::Default)) =~= "default"@);
}

/// The token a punctuation character starts, wherever it stands: brackets,
/// braces and parentheses open and close as their shape says; `,` `;` `#`
/// `%` `^` are one-character tokens; a character that can start a longer
/// token (`:` `+` `-` `*` `/` `=` `!` `<` `>` `&` `|` `.`) takes the second
/// character that completes it (`->` is an arrow, `==` an equality test,
/// `&&` a conjunction, `..` a range) and otherwise stands alone.
pub proof fn lemma_punctuation(cs: Seq<char>, i: int, p: int)
    requires
        1 <= i <= cs.len(),
    ensures
        lex_char(cs, '(', i, p).tok.kind == TokenKind::LParen,
        lex_char(cs, ')', i, p).tok.kind == TokenKind::RParen,
        lex_char(cs, '[', i, p).tok.kind == TokenKind::LBracket,
        lex_char(cs, ']', i, p).tok.kind == TokenKind::RBracket,
        lex_char(cs, '{', i, p).tok.kind == TokenKind::LBrace,
        lex_char(cs, '}', i, p).tok.kind == TokenKind::RBrace,
        lex_char(cs, ',', i, p).tok.kind == TokenKind::Comma,
        lex_char(cs, ';', i, p).tok.kind == TokenKind::Semi,
        lex_char(cs, '#', i, p).tok.kind == TokenKind::Pound,
        lex_char(cs, '%', i, p).tok.kind == TokenKind::Percent,
        lex_char(cs, '^', i, p).tok.kind == TokenKind::Xor,
        lex_char(cs, ':', i, p).tok.kind == (if next_is(cs, i, '>') { TokenKind::Arrow } else { TokenKind::Colon }),
        lex_char(cs, '-', i, p).tok.kind == (if next_is(cs, i, '>') {
            TokenKind::Arrow
        } else if next_is(cs, i, '=') {
            TokenKind::MinusEq
        } else if next_is(cs, i, '-') {
            TokenKind::Decrement
        } else {
            TokenKind::Minus
        }),
        lex_char(cs, '+', i, p).tok.kind == (if next_is(cs, i, '=') {
            TokenKind::PlusEq
        } else if next_is(cs, i, '+') {
            TokenKind::Increment
        } else {
            TokenKind::Plus
        }),
        lex_char(cs, '*', i, p).tok.kind == (if next_is(cs, i, '=') { TokenKind::StarEq } else { TokenKind::Star }),
        lex_char(cs, '/', i, p).tok.kind == (if next_is(cs, i, '=') { TokenKind::SlashEq } else { TokenKind::Slash }),
        lex_char(cs, '=', i, p).tok.kind == (if next_is(cs, i, '=') { TokenKind::EqEq } else { TokenKind::Assign }),
        lex_char(cs, '!', i, p).tok.kind == (if next_is(cs, i, '=') { TokenKind::BangEq } else { TokenKind::Not }),
        lex_char(cs, '<', i, p).tok.kind == (if next_is(cs, i, '=') { TokenKind::LessEq } else { TokenKind::Less }),
        lex_char(cs, '>', i, p).tok.kind == (if next_is(cs, i, '=') {
            TokenKind::GreaterEq
        } else {
            TokenKind::Greater
        }),
        lex_char(cs, '&', i, p).tok.kind == (if next_is(cs, i, '&') { TokenKind::And } else { TokenKind::BitAnd }),
        lex_char(cs, '|', i, p).tok.kind == (if next_is(cs, i, '|') { TokenKind::Or } else { TokenKind::BitOr }),
        lex_char(cs, '.', i, p).tok.kind == (if next_is(cs, i, '.') { TokenKind::DotDot } else { TokenKind::Dot }),
{
}

/// How a string literal reads its characters, from any point `i` inside
/// it: a `"` ends it; `\n`, `\t` and `\r` stand for the control
/// characters with codes 10, 9 and 13, and a backslash before any other
/// character stands for that character; every other character stands for
/// itself.
pub proof fn lemma_string_characters(cs: Seq<char>, i: int, p: int, acc: Seq<char>)
    requires
        0 <= i < cs.len(),
    ensures
        cs[i] == '"' ==> lex_string(cs, i, p, acc).tok.text == acc && lex_string(cs, i, p, acc).idx == i + 1,
        cs[i] != '"' && cs[i] != '\\' ==> lex_string(cs, i, p, acc) == lex_string(
            cs,
            i + 1,
            p + utf8_width(cs[i]),
            acc.push(cs[i]),
        ),
        cs[i] == '\\' && i + 1 < cs.len() ==> ({
            let e = cs[i + 1];
            let next = lex_string(cs, i + 2, p + 1 + utf8_width(e), acc.push(
                if e == 'n' {
                    10u8 as char
                } else if e == 't' {
                    9u8 as char
                } else if e == 'r' {
                    13u8 as char
                } else {
                    e
                },
            ));
            lex_string(cs, i, p, acc) == next
        }),
{
    assert(('\n' as u32) == 10 && ('\t' as u32) == 9 && ('\r' as u32) == 13);
    assert((10u8 as char) == '\n' && (9u8 as char) == '\t' && (13u8 as char) == '\r');
}

/// Where a run of digits from `a` ends at `j`, the scan for its end stops
/// at `j`.
proof fn lemma_digits_run(cs: Seq<char>, a: int, j: int)
    requires
        0 <= a <= j <= cs.len(),
        forall|k: int| a <= k < j ==> is_digit(#[trigger] cs[k]),
        j == cs.len() || !is_digit(cs[j]),
    ensures
        digits_end(cs, a) == j,
    decreases j - a,
{
    if a < j {
        lemma_digits_run(cs, a + 1, j);
    }
}

/// Where a run of word characters from `a` ends at `j`, the scan for its
/// end stops at `j`.
proof fn lemma_word_run(cs: Seq<char>, a: int, j: int)
    requires
        0 <= a <= j <= cs.len(),
        forall|k: int| a <= k < j ==> is_word(#[trigger] cs[k]),
        j == cs.len() || !is_word(cs[j]),
    ensures
        word_end(cs, a) == j,
    decreases j - a,
{
    if a < j {
        lemma_word_run(cs, a + 1, j);
    }
}

/// A whole number, a run of digits that neither a digit nor a decimal
/// point follows (a `..` may), is one `Number` token holding exactly those
/// digits, and the next token starts right after it.
pub proof fn lemma_whole_number(cs: Seq<char>, i: int, j: int, p: int)
    requires
        0 <= i < j <= cs.len(),
        forall|k: int| i <= k < j ==> is_digit(#[trigger] cs[k]),
        j == cs.len() || (!is_digit(cs[j]) && (cs[j] != '.' || next_is(cs, j + 1, '.'))),
    ensures
        lex_next(cs, i, p, false).tok == (TokenView { kind: TokenKind::Number, text: cs.subrange(i, j) }),
        lex_next(cs, i, p, false).idx == j,
{
    lemma_digits_run(cs, i + 1, j);
    assert(!is_ws(cs[i]));
    assert(cs[i] != '/');
}

/// A number with a decimal point, digits, `.`, then digits (maybe none)
/// that no digit follows, is one `Number` token holding all of it, and the
/// next token starts right after it.
pub proof fn lemma_decimal_number(cs: Seq<char>, i: int, j: int, k: int, p: int)
    requires
        0 <= i < j < k <= cs.len(),
        forall|m: int| i <= m < j ==> is_digit(#[trigger] cs[m]),
        cs[j] == '.',
        forall|m: int| j < m < k ==> is_digit(#[trigger] cs[m]),
        k == cs.len() || !is_digit(cs[k]),
        !next_is(cs, j + 1, '.'),
    ensures
        lex_next(cs, i, p, false).tok == (TokenView { kind: TokenKind::Number, text: cs.subrange(i, k) }),
        lex_next(cs, i, p, false).idx == k,
{
    lemma_digits_run(cs, i + 1, j);
    lemma_digits_run(cs, j + 1, k);
    assert(!is_ws(cs[i]));
    assert(cs[i] != '/');
}

/// A word, a letter or `_` followed by letters, digits and `_`, that is
/// no keyword, is one `Ident` token holding exactly that word, and the
/// next token starts right after it.
pub proof fn lemma_identifier(cs: Seq<char>, i: int, j: int, p: int)
    requires
        0 <= i < j <= cs.len(),
        is_alpha(cs[i]) || cs[i] == '_',
        forall|k: int| i <= k < j ==> is_word(#[trigger] cs[k]),
        j == cs.len() || !is_word(cs[j]),
        keyword_kind(cs.subrange(i, j)) is None,
    ensures
        lex_next(cs, i, p, false).tok == (TokenView { kind: TokenKind::Ident, text: cs.subrange(i, j) }),
        lex_next(cs, i, p, false).idx == j,
{
    lemma_word_run(cs, i + 1, j);
    assert(!is_ws(cs[i]));
    assert(cs[i] != '/');
}

/// What a string literal reads, and where it ends, does not depend on the
/// byte counter.
proof fn lemma_lex_string_counter_free(cs: Seq<char>, i: int, p: int, q: int, acc: Seq<char>)
    ensures
        lex_string(cs, i, p, acc).tok == lex_string(cs, i, q, acc).tok,
        lex_string(cs, i, p, acc).idx == lex_string(cs, i, q, acc).idx,
    decreases cs.len() - i,
{
    if 0 <= i < cs.len() {
        let ch = cs[i];
        if ch == '"' {
        } else if ch == '\\' {
            if i + 1 < cs.len() {
                let e = cs[i + 1];
                lemma_lex_string_counter_free(
                    cs,
                    i + 2,
                    p + utf8_width(ch) + utf8_width(e),
                    q + utf8_width(ch) + utf8_width(e),
                    acc.push(unescape(e)),
                );
            } else {
                lemma_lex_string_counter_free(cs, i + 1, p + utf8_width(ch), q + utf8_width(ch), acc);
            }
        } else {
            lemma_lex_string_counter_free(cs, i + 1, p + utf8_width(ch), q + utf8_width(ch), acc.push(ch));
        }
    }
}

/// Which token comes next, and where it ends, does not depend on the byte
/// counter.
proof fn lemma_lex_next_counter_free(cs: Seq<char>, i: int, p: int, q: int, in_comment: bool)
    ensures
        lex_next(cs, i, p, in_comment).tok == lex_next(cs, i, q, in_comment).tok,
        lex_next(cs, i, p, in_comment).idx == lex_next(cs, i, q, in_comment).idx,
    decreases cs.len() - i,
{
    if 0 <= i < cs.len() {
        let c = cs[i];
        if in_comment {
            lemma_lex_next_counter_free(cs, i + 1, p + utf8_width(c), q + utf8_width(c), c != '\n');
        } else if is_ws(c) {
            lemma_lex_next_counter_free(cs, i + 1, p + utf8_width(c), q + utf8_width(c), false);
        } else if c == '/' && next_is(cs, i + 1, '/') {
            lemma_lex_next_counter_free(cs, i + 2, p + 2, q + 2, true);
        } else if c == '"' {
            lemma_lex_string_counter_free(cs, i + 1, p + 1, q + 1, Seq::empty());
        }
    }
}

/// Inside a comment, the characters up to the line break are passed over.
proof fn lemma_comment_rest(cs: Seq<char>, k: int, j: int, p: int)
    requires
        0 <= k <= j < cs.len(),
        cs[j] == '\n',
        forall|m: int| k <= m < j ==> #[trigger] cs[m] != '\n',
    ensures
        lex_next(cs, k, p, true).tok == lex_next(cs, j + 1, 0, false).tok,
        lex_next(cs, k, p, true).idx == lex_next(cs, j + 1, 0, false).idx,
    decreases j - k,
{
    if k < j {
        lemma_comment_rest(cs, k + 1, j, p + utf8_width(cs[k]));
    } else {
        lemma_lex_next_counter_free(cs, j + 1, p + utf8_width(cs[j]), 0, false);
    }
}

/// Whitespace and `//` comments separate tokens and are not tokens: a
/// whitespace character, or a comment through the end of its line, before
/// a token leaves that token as it is.
pub proof fn lemma_skipped_text(cs: Seq<char>, i: int, j: int, p: int)
    requires
        0 <= i < j < cs.len(),
    ensures
        is_ws(cs[i]) ==> lex_next(cs, i, p, false).tok == lex_next(cs, i + 1, 0, false).tok
            && lex_next(cs, i, p, false).idx == lex_next(cs, i + 1, 0, false).idx,
        (cs[i] == '/' && next_is(cs, i + 1, '/') && cs[j] == '\n' && i + 2 <= j && (forall|m: int|
            i + 2 <= m < j ==> #[trigger] cs[m] != '\n')) ==> lex_next(cs, i, p, false).tok == lex_next(
            cs,
            j + 1,
            0,
            false,
        ).tok && lex_next(cs, i, p, false).idx == lex_next(cs, j + 1, 0, false).idx,
{
    if is_ws(cs[i]) {
        lemma_lex_next_counter_free(cs, i + 1, p + utf8_width(cs[i]), 0, false);
    }
    if cs[i] == '/' && next_is(cs, i + 1, '/') && cs[j] == '\n' && i + 2 <= j && (forall|m: int|
        i + 2 <= m < j ==> #[trigger] cs[m] != '\n') {
        lemma_comment_rest(cs, i + 2, j, p + 2);
    }
}

proof fn lemma_digits_end(cs: Seq<char>, i: int)
    requires
        0 <= i <= cs.len(),
    ensures
        i <= digits_end(cs, i) <= cs.len(),
        forall|k: int| i <= k < digits_end(cs, i) ==> is_digit(#[trigger] cs[k]),
    decreases cs.len() - i,
{
    if i < cs.len() && is_digit(cs[i]) {
        lemma_digits_end(cs, i + 1);
    }
}

proof fn lemma_word_end(cs: Seq<char>, i: int)
    requires
        0 <= i <= cs.len(),
    ensures
        i <= word_end(cs, i) <= cs.len(),
        forall|k: int| i <= k < word_end(cs, i) ==> is_word(#[trigger] cs[k]),
    decreases cs.len() - i,
{
    if i < cs.len() && is_word(cs[i]) {
        lemma_word_end(cs, i + 1);
    }
}

proof fn lemma_lex_string_progress(cs: Seq<char>, i: int, p: int, acc: Seq<char>)
    requires
        0 <= i <= cs.len(),
    ensures
        i <= lex_string(cs, i, p, acc).idx <= cs.len(),
        lex_string(cs, i, p, acc).tok.kind == TokenKind::StringLiteral,
        lex_string(cs, i, p, acc).pos >= p,
    decreases cs.len() - i,
{
    if i < cs.len() {
        let ch = cs[i];
        lemma_width_range(ch);
        if ch == '"' {
        } else if ch == '\\' {
            if i + 1 < cs.len() {
                lemma_width_range(cs[i + 1]);
                lemma_lex_string_progress(cs, i + 2, p + utf8_width(ch) + utf8_width(cs[i + 1]), acc.push(unescape(cs[i + 1])));
            } else {
                lemma_lex_string_progress(cs, i + 1, p + utf8_width(ch), acc);
            }
        } else {
            lemma_lex_string_progress(cs, i + 1, p + utf8_width(ch), acc.push(ch));
        }
    }
}

proof fn lemma_lex_char_progress(cs: Seq<char>, c: char, i: int, p: int)
    requires
        1 <= i <= cs.len(),
    ensures
        i <= lex_char(cs, c, i, p).idx <= cs.len(),
        lex_char(cs, c, i, p).tok.kind != TokenKind::Eof,
        lex_char(cs, c, i, p).pos > p,
{
    lemma_digits_end(cs, i);
    let j = digits_end(cs, i);
    if j < cs.len() {
        lemma_digits_end(cs, j + 1);
    }
    lemma_word_end(cs, i);
    lemma_lex_string_progress(cs, i, p + 1, Seq::empty());
    let w = cs.subrange(i - 1, word_end(cs, i));
    if keyword_kind(w) is Some {
        assert(keyword_kind(w) != Some(TokenKind::Eof));
    }
}

/// A step that finds a token other than `Eof` reads at least one character;
/// `Eof` is found only at the end of the input.
pub proof fn lemma_lex_next_progress(cs: Seq<char>, i: int, p: int, in_comment: bool)
    requires
        0 <= i <= cs.len(),
    ensures
        i <= lex_next(cs, i, p, in_comment).idx <= cs.len(),
        lex_next(cs, i, p, in_comment).tok.kind != TokenKind::Eof ==> lex_next(cs, i, p, in_comment).idx > i,
        lex_next(cs, i, p, in_comment).tok.kind == TokenKind::Eof ==> lex_next(cs, i, p, in_comment).idx == cs.len(),
        lex_next(cs, i, p, in_comment).pos >= p,
    decreases cs.len() - i,
{
    if i < cs.len() {
        let c = cs[i];
        lemma_width_range(c);
        if in_comment {
            lemma_lex_next_progress(cs, i + 1, p + utf8_width(c), c != '\n');
        } else if is_ws(c) {
            lemma_lex_next_progress(cs, i + 1, p + utf8_width(c), false);
        } else if c == '/' && next_is(cs, i + 1, '/') {
            lemma_lex_next_progress(cs, i + 2, p + 2, true);
        } else {
            lemma_lex_char_progress(cs, c, i + 1, p);
        }
    }
}

proof fn lemma_ascii_width(cs: Seq<char>, k: int)
    requires
        vstd::utf8::is_ascii_chars(cs),
        0 <= k < cs.len(),
    ensures
        utf8_width(cs[k]) == 1,
{
    let c = cs[k];
    assert('\0' <= c <= '\u{7f}');
    assert((c as u32) < 0x80);
}

/// For ASCII text the byte length is the character count.
pub proof fn lemma_ascii_byte_len(cs: Seq<char>)
    requires
        vstd::utf8::is_ascii_chars(cs),
    ensures
        byte_len(cs) == cs.len(),
    decreases cs.len(),
{
    if cs.len() > 0 {
        assert(vstd::utf8::is_ascii_chars(cs.drop_last()));
        lemma_ascii_byte_len(cs.drop_last());
        lemma_ascii_width(cs, cs.len() - 1);
    }
}

proof fn lemma_lex_string_ascii(cs: Seq<char>, i: int, p: int, acc: Seq<char>)
    requires
        vstd::utf8::is_ascii_chars(cs),
        0 <= i <= cs.len(),
        p == i,
    ensures
        lex_string(cs, i, p, acc).pos == lex_string(cs, i, p, acc).idx,
    decreases cs.len() - i,
{
    if i < cs.len() {
        lemma_ascii_width(cs, i);
        let ch = cs[i];
        if ch == '"' {
        } else if ch == '\\' {
            if i + 1 < cs.len() {
                lemma_ascii_width(cs, i + 1);
                lemma_lex_string_ascii(cs, i + 2, p + 2, acc.push(unescape(cs[i + 1])));
            } else {
                lemma_lex_string_ascii(cs, i + 1, p + 1, acc);
            }
        } else {
            lemma_lex_string_ascii(cs, i + 1, p + 1, acc.push(ch));
        }
    }
}

proof fn lemma_lex_char_ascii(cs: Seq<char>, c: char, i: int, p: int)
    requires
        vstd::utf8::is_ascii_chars(cs),
        1 <= i <= cs.len(),
        p == i - 1,
    ensures
        lex_char(cs, c, i, p).pos == lex_char(cs, c, i, p).idx,
{
    lemma_lex_string_ascii(cs, i, p + 1, Seq::empty());
}

/// For ASCII input a counter that equals the character index still equals
/// it after a step.
pub proof fn lemma_lex_next_ascii(cs: Seq<char>, i: int, p: int, in_comment: bool)
    requires
        vstd::utf8::is_ascii_chars(cs),
        0 <= i <= cs.len(),
        p == i,
    ensures
        lex_next(cs, i, p, in_comment).pos == lex_next(cs, i, p, in_comment).idx,
    decreases cs.len() - i,
{
    if i < cs.len() {
        lemma_ascii_width(cs, i);
        let c = cs[i];
        if in_comment {
            lemma_lex_next_ascii(cs, i + 1, p + 1, c != '\n');
        } else if is_ws(c) {
            lemma_lex_next_ascii(cs, i + 1, p + 1, false);
        } else if c == '/' && next_is(cs, i + 1, '/') {
            lemma_lex_next_ascii(cs, i + 2, p + 2, true);
        } else {
            lemma_lex_char_ascii(cs, c, i + 1, p);
        }
    }
}

fn run_char(c: char, word: bool) -> (r: bool)
    ensures
        r == (if word {
            is_word(c)
        } else {
            is_digit(c)
        }),
{
    if word {
        word_test(c)
    } else {
        digit_test(c)
    }
}

/// The lexer over one input. It holds the input's characters, the index of
/// the next one to read, and the byte counter.
pub struct Lexer<'a> {
    chars: Vec<char>,
    idx: usize,
    pos: usize,
    input: &'a str,
}

impl<'a> Lexer<'a> {
    /// The characters being lexed.
    pub closed spec fn source(&self) -> Seq<char> {
        self.chars@
    }

    /// The UTF-8 bytes of the input.
    pub closed spec fn source_bytes(&self) -> Seq<u8> {
        self.input.spec_bytes()
    }

    /// Index of the next character to read.
    pub closed spec fn index(&self) -> int {
        self.idx as int
    }

    /// The byte counter.
    pub closed spec fn counter(&self) -> int {
        self.pos as int
    }

    /// The lexer's invariant: its characters are those of its input, the
    /// index is within them, and the counter has not run ahead of the byte
    /// offset of the index.
    pub closed spec fn wf(&self) -> bool {
        &&& self.chars@ == self.input@
        &&& self.idx <= self.chars.len()
        &&& self.pos <= byte_len(self.chars@.take(self.idx as int))
        &&& byte_len(self.chars@) <= usize::MAX
    }

    /// A lexer at the start of `input`.
    pub fn new(input: &'a str) -> (l: Self)
        ensures
            l.wf(),
            l.source() == input@,
            l.source_bytes() == input.spec_bytes(),
            l.index() == 0,
            l.counter() == 0,
    {
        let n = input.as_bytes().len();
        proof {
            lemma_encode_len(input@);
            assert(n == input.spec_bytes().len());
            assert(input@.take(0) =~= Seq::<char>::empty());
        }
        Lexer { chars: chars_of(input), idx: 0, pos: 0, input }
    }

    /// The next character, without reading it.
    pub fn peek(&mut self) -> (r: Option<char>)
        ensures
            *final(self) == *old(self),
            r == (if 0 <= old(self).index() < old(self).source().len() {
                Some(old(self).source()[old(self).index()])
            } else {
                None
            }),
    {
        if self.idx < self.chars.len() {
            Some(self.chars[self.idx])
        } else {
            None
        }
    }

    proof fn lemma_bytes(&self)
        requires
            self.wf(),
        ensures
            self.source_bytes().len() == byte_len(self.source()),
            byte_len(self.source()) <= usize::MAX,
    {
        lemma_encode_len(self.chars@);
    }

    /// Reads the next character when it is the ASCII character `want`.
    fn eat(&mut self, want: char) -> (r: bool)
        requires
            old(self).wf(),
            (want as u32) < 0x80,
        ensures
            final(self).wf(),
            final(self).input == old(self).input,
            final(self).chars == old(self).chars,
            r == next_is(old(self).chars@, old(self).idx as int, want),
            r ==> final(self).idx == old(self).idx + 1 && final(self).pos == old(self).pos + 1,
            !r ==> *final(self) == *old(self),
    {
        if self.idx < self.chars.len() && self.chars[self.idx] == want {
            proof {
                lemma_byte_len_take_step(self.chars@, self.idx as int);
                lemma_byte_len_prefix(self.chars@, self.idx + 1);
                self.lemma_bytes();
            }
            self.idx += 1;
            self.pos += 1;
            true
        } else {
            false
        }
    }

    /// Reads the next character, which must exist, adding its width to the
    /// counter.
    fn take(&mut self) -> (c: char)
        requires
            old(self).wf(),
            old(self).idx < old(self).chars.len(),
        ensures
            final(self).wf(),
            final(self).input == old(self).input,
            final(self).chars == old(self).chars,
            c == old(self).chars@[old(self).idx as int],
            final(self).idx == old(self).idx + 1,
            final(self).pos == old(self).pos + utf8_width(c),
    {
        let c = self.chars[self.idx];
        proof {
            lemma_byte_len_take_step(self.chars@, self.idx as int);
            lemma_byte_len_prefix(self.chars@, self.idx + 1);
            self.lemma_bytes();
        }
        self.idx += 1;
        self.pos += char_width(c);
        c
    }

    /// Reads ASCII digits (or word characters, when `word` is set) into `s`.
    fn take_run(&mut self, s: &mut String, word: bool)
        requires
            old(self).wf(),
        ensures
            final(self).wf(),
            final(self).input == old(self).input,
            final(self).chars == old(self).chars,
            final(self).idx == (if word {
                word_end(old(self).chars@, old(self).idx as int)
            } else {
                digits_end(old(self).chars@, old(self).idx as int)
            }),
            old(self).idx <= final(self).idx,
            final(self).pos == old(self).pos + (final(self).idx - old(self).idx),
            final(s)@ == old(s)@ + old(self).chars@.subrange(old(self).idx as int, final(self).idx as int),
    {
        let ghost i0 = self.idx as int;
        let ghost p0 = self.pos as int;
        let ghost s0 = s@;
        while self.idx < self.chars.len() && run_char(self.chars[self.idx], word)
            invariant
                self.wf(),
                self.input == old(self).input,
                self.chars == old(self).chars,
                0 <= i0 <= self.idx,
                self.pos == p0 + (self.idx - i0),
                s@ == s0 + self.chars@.subrange(i0, self.idx as int),
                (if word {
                    word_end(self.chars@, i0)
                } else {
                    digits_end(self.chars@, i0)
                }) == (if word {
                    word_end(self.chars@, self.idx as int)
                } else {
                    digits_end(self.chars@, self.idx as int)
                }),
            decreases self.chars.len() - self.idx,
        {
            let c = self.chars[self.idx];
            proof {
                lemma_byte_len_take_step(self.chars@, self.idx as int);
                lemma_byte_len_prefix(self.chars@, self.idx + 1);
                self.lemma_bytes();
            }
            let ghost before = s@;
            assert(before == s0 + self.chars@.subrange(i0, self.idx as int));
            push_char(s, c);
            assert(s@ == before.push(c));
            self.idx += 1;
            self.pos += 1;
            assert(i0 <= self.idx <= self.chars@.len());
            assert(self.chars@.subrange(i0, self.idx as int) =~= self.chars@.subrange(i0, self.idx - 1).push(c));
            assert(s@ =~= s0 + self.chars@.subrange(i0, self.idx as int));
        }
    }

    /// A number literal whose first digit `c` was just read.
    fn number(&mut self, c: char) -> (t: Token)
        requires
            old(self).wf(),
            old(self).idx >= 1,
            old(self).chars@[old(self).idx - 1] == c,
            is_digit(c),
            old(self).pos + 1 <= byte_len(old(self).chars@.take(old(self).idx as int)),
        ensures
            final(self).wf(),
            final(self).input == old(self).input,
            final(self).chars == old(self).chars,
            ({
                let r = lex_number(old(self).chars@, old(self).idx as int, old(self).pos as int);
                t@ == r.tok && final(self).idx == r.idx && final(self).pos == r.pos
            }),
    {
        let ghost cs = self.chars@;
        let ghost i = self.idx as int;
        let ghost p = self.pos as int;
        let mut num = String::new();
        push_char(&mut num, c);
        proof {
            lemma_byte_len_prefix(cs, i);
        }
        self.pos += 1;
        self.take_run(&mut num, false);
        let ghost j = self.idx as int;
        assert(num@ =~= cs.subrange(i - 1, j));
        let next_is_point = self.idx < self.chars.len() && self.chars[self.idx] == '.';
        let point_follows = next_is_point && self.chars.len() - self.idx > 1 && self.chars[self.idx + 1] == '.';
        if next_is_point && !point_follows {
            let point = self.take();
            push_char(&mut num, point);
            assert(num@ =~= cs.subrange(i - 1, j + 1));
            self.take_run(&mut num, false);
            assert(num@ =~= cs.subrange(i - 1, self.idx as int));
        }
        Token::Number(num)
    }

    /// The rest of a string literal, whose opening quote was just read.
    #[verifier::loop_isolation(false)]
    fn string_literal(&mut self) -> (t: Token)
        requires
            old(self).wf(),
            old(self).pos + 1 <= byte_len(old(self).chars@.take(old(self).idx as int)),
        ensures
            final(self).wf(),
            final(self).input == old(self).input,
            final(self).chars == old(self).chars,
            ({
                let r = lex_string(old(self).chars@, old(self).idx as int, old(self).pos + 1, Seq::empty());
                t@ == r.tok && final(self).idx == r.idx && final(self).pos == r.pos
            }),
    {
        let ghost cs = self.chars@;
        let ghost start = lex_string(cs, self.idx as int, self.pos + 1, Seq::empty());
        proof {
            lemma_byte_len_prefix(cs, self.idx as int);
        }
        self.pos += 1;
        let mut s = String::new();
        while self.idx < self.chars.len()
            invariant
                self.wf(),
                self.input == old(self).input,
                self.chars == old(self).chars,
                cs == self.chars@,
                start == lex_string(cs, self.idx as int, self.pos as int, s@),
            decreases self.chars.len() - self.idx,
        {
            let ch = self.take();
            if ch == '"' {
                return Token::StringLiteral(s);
            }
            if ch == '\\' {
                if self.idx < self.chars.len() {
                    let escaped = self.take();
                    push_char(
                        &mut s,
                        if escaped == 'n' {
                            '\n'
                        } else if escaped == 't' {
                            '\t'
                        } else if escaped == 'r' {
                            '\r'
                        } else {
                            escaped
                        },
                    );
                }
            } else {
                push_char(&mut s, ch);
            }
        }
        Token::StringLiteral(s)
    }

    /// An identifier or keyword whose first character `c` was just read.
    fn word(&mut self, c: char) -> (t: Token)
        requires
            old(self).wf(),
            old(self).idx >= 1,
            old(self).chars@[old(self).idx - 1] == c,
            old(self).pos + 1 <= byte_len(old(self).chars@.take(old(self).idx as int)),
        ensures
            final(self).wf(),
            final(self).input == old(self).input,
            final(self).chars == old(self).chars,
            ({
                let r = lex_word(old(self).chars@, old(self).idx as int, old(self).pos as int);
                t@ == r.tok && final(self).idx == r.idx && final(self).pos == r.pos
            }),
    {
        let ghost cs = self.chars@;
        let ghost i = self.idx as int;
        let mut word = String::new();
        push_char(&mut word, c);
        proof {
            lemma_byte_len_prefix(cs, i);
        }
        self.pos += 1;
        self.take_run(&mut word, true);
        assert(word@ =~= cs.subrange(i - 1, self.idx as int));
        match keyword(&word) {
            Some(k) => Token::plain(k),
            None => Token::Ident(word),
        }
    }

    /// The token that starts with `c`, the character just read.
    #[verifier::loop_isolation(false)]
    fn token_from_char(&mut self, c: char) -> (t: Token)
        requires
            old(self).wf(),
            old(self).idx >= 1,
            old(self).chars@[old(self).idx - 1] == c,
            old(self).pos + utf8_width(c) <= byte_len(old(self).chars@.take(old(self).idx as int)),
        ensures
            final(self).wf(),
            final(self).input == old(self).input,
            final(self).chars == old(self).chars,
            ({
                let r = lex_char(old(self).chars@, c, old(self).idx as int, old(self).pos as int);
                t@ == r.tok && final(self).idx == r.idx && final(self).pos == r.pos
            }),
    {
        let ghost cs = self.chars@;
        let ghost i = self.idx as int;
        let ghost p = self.pos as int;
        proof {
            lemma_byte_len_prefix(cs, i);
            lemma_width_range(c);
        }
        if c == '(' || c == ')' || c == '[' || c == ']' || c == '{' || c == '}' || c == ','
            || c == ';' || c == '#' || c == '%' || c == '^' {
            self.pos += 1;
            return Token::plain(
                if c == '(' {
                    TokenKind::LParen
                } else if c == ')' {
                    TokenKind::RParen
                } else if c == '[' {
                    TokenKind::LBracket
                } else if c == ']' {
                    TokenKind::RBracket
                } else if c == '{' {
                    TokenKind::LBrace
                } else if c == '}' {
                    TokenKind::RBrace
                } else if c == ',' {
                    TokenKind::Comma
                } else if c == ';' {
                    TokenKind::Semi
                } else if c == '#' {
                    TokenKind::Pound
                } else if c == '%' {
                    TokenKind::Percent
                } else {
                    TokenKind::Xor
                },
            );
        }
        if c == ':' {
            self.pos += 1;
            return if self.eat('>') {
                Token::Arrow
            } else {
                Token::Colon
            };
        }
        if c == '+' {
            self.pos += 1;
            return if self.eat('=') {
                Token::PlusEq
            } else if self.eat('+') {
                Token::Increment
            } else {
                Token::Plus
            };
        }
        if c == '-' {
            self.pos += 1;
            return if self.eat('>') {
                Token::Arrow
            } else if self.eat('=') {
                Token::MinusEq
            } else if self.eat('-') {
                Token::Decrement
            } else {
                Token::Minus
            };
        }
        if c == '*' || c == '/' || c == '=' || c == '!' || c == '<' || c == '>' {
            self.pos += 1;
            let second = self.eat('=');
            return Token::plain(
                if c == '*' {
                    if second {
                        TokenKind::StarEq
                    } else {
                        TokenKind::Star
                    }
                } else if c == '/' {
                    if second {
                        TokenKind::SlashEq
                    } else {
                        TokenKind::Slash
                    }
                } else if c == '=' {
                    if second {
                        TokenKind::EqEq
                    } else {
                        TokenKind::Assign
                    }
                } else if c == '!' {
                    if second {
                        TokenKind::BangEq
                    } else {
                        TokenKind::Not
                    }
                } else if c == '<' {
                    if second {
                        TokenKind::LessEq
                    } else {
                        TokenKind::Less
                    }
                } else if second {
                    TokenKind::GreaterEq
                } else {
                    TokenKind::Greater
                },
            );
        }
        if c == '&' {
            self.pos += 1;
            return if self.eat('&') {
                Token::And
            } else {
                Token::BitAnd
            };
        }
        if c == '|' {
            self.pos += 1;
            return if self.eat('|') {
                Token::Or
            } else {
                Token::BitOr
            };
        }
        if c == '.' {
            self.pos += 1;
            return if self.eat('.') {
                Token::DotDot
            } else {
                Token::Dot
            };
        }
        if digit_test(c) {
            return self.number(c);
        }
        if c == '"' {
            return self.string_literal();
        }
        if alpha_test(c) || c == '_' {
            return self.word(c);
        }
        self.pos += 1;
        Token::Error
    }

    /// The next token, after skipping whitespace and `//` comments.
    #[verifier::loop_isolation(false)]
    fn next_token(&mut self) -> (t: (Token, usize))
        requires
            old(self).wf(),
        ensures
            final(self).wf(),
            final(self).input == old(self).input,
            final(self).chars == old(self).chars,
            ({
                let r = lex_next(old(self).chars@, old(self).idx as int, old(self).pos as int, false);
                t.0@ == r.tok && final(self).idx == r.idx && final(self).pos == r.pos
            }),
            t.1 == token_start(old(self).chars@, old(self).idx as int, false),
    {
        let ghost cs = self.chars@;
        let ghost start = lex_next(cs, self.idx as int, self.pos as int, false);
        let ghost first = token_start(cs, self.idx as int, false);
        let mut in_comment = false;
        loop
            invariant
                self.wf(),
                self.input == old(self).input,
                self.chars == old(self).chars,
                cs == self.chars@,
                start == lex_next(cs, self.idx as int, self.pos as int, in_comment),
                first == token_start(cs, self.idx as int, in_comment),
            decreases self.chars.len() - self.idx,
        {
            if self.idx >= self.chars.len() {
                return (Token::Eof, self.idx);
            }
            let at = self.idx;
            let p = self.pos;
            let c = self.take();
            if in_comment {
                in_comment = c != '\n';
            } else if is_whitespace(c) {
            } else if c == '/' && self.peek() == Some('/') {
                proof {
                    lemma_byte_len_take_step(cs, self.idx as int);
                    lemma_byte_len_prefix(cs, self.idx + 1);
                }
                self.idx += 1;
                self.pos = self.pos + 1;
                in_comment = true;
            } else {
                self.pos = p;
                return (self.token_from_char(c), at);
            }
        }
    }
}

/// Splits `input` into tokens. The last token is `Eof` and is the only
/// `Eof`; spans follow each other without gaps from 0, and end within the
/// input (at its end when the input is ASCII). Each token carries the line
/// and column where it starts; the input's length in characters must be
/// below `usize::MAX` for those counts to fit.
pub fn tokenize(input: &str) -> (tokens: Vec<SpannedToken>)
    requires
        input@.len() < usize::MAX,
    ensures
        spanned_views(tokens@) == lex(input@),
        token_locs(tokens@) == lex_locs(input@),
        tokens@.len() >= 1,
        tokens@.last().token@.kind == TokenKind::Eof,
        forall|k: int| 0 <= k < tokens@.len() - 1 ==> (#[trigger] tokens@[k]).token@.kind != TokenKind::Eof,
        tokens@[0].span.0 == 0,
        forall|k: int| 0 <= k < tokens@.len() ==> (#[trigger] tokens@[k]).span.0 <= tokens@[k].span.1,
        forall|k: int| 0 <= k < tokens@.len() - 1 ==> (#[trigger] tokens@[k]).span.1 == tokens@[k + 1].span.0,
        tokens@.last().span.1 <= input.spec_bytes().len(),
        vstd::string::is_ascii(input) ==> tokens@.last().span.1 == input.spec_bytes().len(),
{
    let bytes = input.as_bytes();
    let n = bytes.len();
    let mut lexer = Lexer { chars: chars_of(input), idx: 0, pos: 0, input };
    let ghost cs = input@;
    proof {
        lemma_encode_len(cs);
        assert(n == input.spec_bytes().len());
        assert(cs.take(0) =~= Seq::<char>::empty());
    }
    let mut tokens: Vec<SpannedToken> = Vec::new();
    let mut ci: usize = 0;
    let mut line: usize = 1;
    let mut column: usize = 1;
    loop
        invariant_except_break
            lex(cs) == spanned_views(tokens@) + lex_from(cs, lexer.idx as int, lexer.pos as int),
            lex_locs(cs) == token_locs(tokens@) + locs_from(cs, lexer.idx as int, lexer.pos as int),
            forall|k: int| 0 <= k < tokens@.len() ==> (#[trigger] tokens@[k]).token@.kind != TokenKind::Eof,
        invariant
            lexer.wf(),
            lexer.input == input,
            lexer.chars@ == cs,
            forall|k: int| 0 <= k < tokens@.len() ==> (#[trigger] tokens@[k]).span.0 <= tokens@[k].span.1,
            forall|k: int| 0 <= k < tokens@.len() - 1 ==> (#[trigger] tokens@[k]).span.1 == tokens@[k + 1].span.0,
            tokens@.len() == 0 ==> lexer.pos == 0,
            tokens@.len() > 0 ==> tokens@[0].span.0 == 0 && tokens@.last().span.1 == lexer.pos,
            vstd::string::is_ascii(input) ==> lexer.pos == lexer.idx,
            cs.len() < usize::MAX,
            ci <= lexer.idx,
            1 <= line,
            1 <= column,
            line + column <= ci + 2,
            line as int == line_col(cs, ci as int).0,
            column as int == line_col(cs, ci as int).1,
        ensures
            spanned_views(tokens@) == lex(cs),
            token_locs(tokens@) == lex_locs(cs),
            tokens@.len() >= 1,
            tokens@.last().token@.kind == TokenKind::Eof,
            forall|k: int| 0 <= k < tokens@.len() - 1 ==> (#[trigger] tokens@[k]).token@.kind != TokenKind::Eof,
            tokens@[0].span.0 == 0,
            forall|k: int| 0 <= k < tokens@.len() ==> (#[trigger] tokens@[k]).span.0 <= tokens@[k].span.1,
            forall|k: int| 0 <= k < tokens@.len() - 1 ==> (#[trigger] tokens@[k]).span.1 == tokens@[k + 1].span.0,
            tokens@.last().span.1 == lexer.pos,
            lexer.idx == cs.len(),
            vstd::string::is_ascii(input) ==> lexer.pos == lexer.idx,
        decreases cs.len() - lexer.idx,
    {
        let start = lexer.pos;
        let ghost i0 = lexer.idx as int;
        let (token, at) = lexer.next_token();
        let end = lexer.pos;
        proof {
            lemma_token_start(cs, i0, start as int, false);
        }
        while ci < at
            invariant
                lexer.chars@ == cs,
                ci <= at <= cs.len(),
                cs.len() < usize::MAX,
                1 <= line,
                1 <= column,
                line + column <= ci + 2,
                line as int == line_col(cs, ci as int).0,
                column as int == line_col(cs, ci as int).1,
            decreases at - ci,
        {
            if lexer.chars[ci] == '\n' {
                line += 1;
                column = 1;
            } else {
                column += 1;
            }
            ci += 1;
        }
        proof {
            lemma_lex_next_progress(cs, i0, start as int, false);
            if vstd::string::is_ascii(input) {
                lemma_lex_next_ascii(cs, i0, start as int, false);
            }
        }
        let is_eof = token.kind() == TokenKind::Eof;
        let ghost before = tokens@;
        tokens.push(SpannedToken { token, span: (start, end), line, column });
        proof {
            assert(spanned_views(tokens@) =~= spanned_views(before).push(tokens@.last()@));
            assert(token_locs(tokens@) =~= token_locs(before).push((line as int, column as int)));
        }
        if is_eof {
            break ;
        }
    }
    proof {
        lexer.lemma_bytes();
        lemma_byte_len_prefix(cs, cs.len() as int);
        assert(cs.take(cs.len() as int) =~= cs);
        if vstd::string::is_ascii(input) {
            lemma_ascii_byte_len(cs);
        }
    }
    tokens
}

} // verus!
