use rustic::lexer::{tokenize, Lexer, SpannedToken, Token};

fn kinds(src: &str) -> Vec<Token> {
    tokenize(src).into_iter().map(|t| t.token).collect()
}

fn spans(src: &str) -> Vec<(usize, usize)> {
    tokenize(src).into_iter().map(|t: SpannedToken| t.span).collect()
}

#[test]
fn empty_input_is_just_eof() {
    let toks = tokenize("");
    assert_eq!(toks.len(), 1);
    assert_eq!(toks[0].token, Token::Eof);
    assert_eq!(toks[0].span, (0, 0));
}

#[test]
fn keywords_and_identifiers() {
    assert_eq!(
        kinds("fn let mut const if else for while return struct import as type"),
        vec![
            Token::Fn,
            Token::Let,
            Token::Mut,
            Token::Const,
            Token::If,
            Token::Else,
            Token::For,
            Token::While,
            Token::Return,
            Token::Struct,
            Token::Import,
            Token::As,
            Token::Type,
            Token::Eof,
        ]
    );
    assert_eq!(
        kinds("trait impl pub mod crate self super use in match branch default"),
        vec![
            Token::Trait,
            Token::Impl,
            Token::Pub,
            Token::Mod,
            Token::Crate,
            Token::Self_,
            Token::Super,
            Token::Use,
            Token::In,
            Token::Match,
            Token::Branch,
            Token::Default,
            Token::Eof,
        ]
    );
    assert_eq!(
        kinds("main _x1 fnord"),
        vec![
            Token::Ident("main".to_string()),
            Token::Ident("_x1".to_string()),
            Token::Ident("fnord".to_string()),
            Token::Eof,
        ]
    );
}

#[test]
fn operators_take_the_longest_match() {
    assert_eq!(
        kinds("+ += ++ - -> -= -- * *= / /= % = == ! != < <= > >= & && | || ^ . .."),
        vec![
            Token::Plus,
            Token::PlusEq,
            Token::Increment,
            Token::Minus,
            Token::Arrow,
            Token::MinusEq,
            Token::Decrement,
            Token::Star,
            Token::StarEq,
            Token::Slash,
            Token::SlashEq,
            Token::Percent,
            Token::Assign,
            Token::EqEq,
            Token::Not,
            Token::BangEq,
            Token::Less,
            Token::LessEq,
            Token::Greater,
            Token::GreaterEq,
            Token::BitAnd,
            Token::And,
            Token::BitOr,
            Token::Or,
            Token::Xor,
            Token::Dot,
            Token::DotDot,
            Token::Eof,
        ]
    );
    assert_eq!(
        kinds("( ) [ ] { } , : :> ; #"),
        vec![
            Token::LParen,
            Token::RParen,
            Token::LBracket,
            Token::RBracket,
            Token::LBrace,
            Token::RBrace,
            Token::Comma,
            Token::Colon,
            Token::Arrow,
            Token::Semi,
            Token::Pound,
            Token::Eof,
        ]
    );
}

#[test]
fn spans_follow_the_byte_counter() {
    // A span starts where the previous token ended, skipped blanks included.
    assert_eq!(spans("fn main"), vec![(0, 2), (2, 7), (7, 7)]);
    assert_eq!(spans("a->b"), vec![(0, 1), (1, 3), (3, 4), (4, 4)]);
}

#[test]
fn numbers_keep_their_digits() {
    assert_eq!(
        kinds("42 007"),
        vec![Token::Number("42".to_string()), Token::Number("007".to_string()), Token::Eof]
    );
}

#[test]
fn a_decimal_point_is_taken_into_the_number() {
    assert_eq!(kinds("3.14"), vec![Token::Number("3.14".to_string()), Token::Eof]);
    assert_eq!(spans("3.14 x"), vec![(0, 4), (4, 6), (6, 6)]);
    assert_eq!(
        kinds("2.x"),
        vec![Token::Number("2.".to_string()), Token::Ident("x".to_string()), Token::Eof]
    );
}

#[test]
fn two_points_after_digits_make_a_range() {
    assert_eq!(
        kinds("1..10"),
        vec![
            Token::Number("1".to_string()),
            Token::DotDot,
            Token::Number("10".to_string()),
            Token::Eof
        ]
    );
    assert_eq!(spans("1..10"), vec![(0, 1), (1, 3), (3, 5), (5, 5)]);
}

#[test]
fn a_fraction_after_a_stray_character() {
    // `é` starts no token: the counter moves by one byte, not two.
    let toks = tokenize("é1.5");
    assert_eq!(toks[0].token, Token::Error);
    assert_eq!(toks[0].span, (0, 1));
    assert_eq!(toks[1].token, Token::Number("1.5".to_string()));
    assert_eq!(toks[1].span, (1, 4));
    assert_eq!(toks[2].token, Token::Eof);
}

#[test]
fn string_literals_unescape() {
    assert_eq!(
        kinds("\"a\\nb\\t\\\"c\\\\\\q\""),
        vec![Token::StringLiteral("a\nb\t\"c\\q".to_string()), Token::Eof]
    );
    assert_eq!(spans("\"ab\" x"), vec![(0, 4), (4, 6), (6, 6)]);
}

#[test]
fn an_unterminated_string_runs_to_the_end() {
    assert_eq!(kinds("\"abc"), vec![Token::StringLiteral("abc".to_string()), Token::Eof]);
}

#[test]
fn comments_and_whitespace_are_skipped() {
    let toks = tokenize("// note\n  x // tail");
    assert_eq!(toks.len(), 2);
    assert_eq!(toks[0].token, Token::Ident("x".to_string()));
    assert_eq!(toks[0].span, (0, 11));
    assert_eq!(toks[1].token, Token::Eof);
    assert_eq!(toks[1].span, (11, 19));
}

#[test]
fn unknown_characters_are_errors() {
    assert_eq!(kinds("@ $"), vec![Token::Error, Token::Error, Token::Eof]);
}

#[test]
fn tokens_cover_ascii_input_without_gaps() {
    let src = "fn add(a: type, b: type) -> type { return a + b; } // done";
    let toks = tokenize(src);
    assert_eq!(toks[0].span.0, 0);
    for w in toks.windows(2) {
        assert_eq!(w[0].span.1, w[1].span.0);
        assert!(w[0].span.0 <= w[0].span.1);
    }
    assert_eq!(toks.last().unwrap().span.1, src.len());
    assert_eq!(toks.iter().filter(|t| t.token == Token::Eof).count(), 1);
    assert_eq!(toks.last().unwrap().token, Token::Eof);
}

#[test]
fn peek_does_not_consume() {
    let mut lx = Lexer::new("ab");
    assert_eq!(lx.peek(), Some('a'));
    assert_eq!(lx.peek(), Some('a'));
    let mut empty = Lexer::new("");
    assert_eq!(empty.peek(), None);
}

#[test]
fn multibyte_blanks_and_comments_count_their_bytes() {
    assert_eq!(spans("a\u{a0}b"), vec![(0, 1), (1, 4), (4, 4)]);
    let toks = tokenize("//é\nx");
    assert_eq!(toks[0].token, Token::Ident("x".to_string()));
    assert_eq!(toks[0].span, (0, 6));
}

#[test]
fn a_string_keeps_multibyte_characters() {
    let toks = tokenize("\"héllo\"");
    assert_eq!(toks[0].token, Token::StringLiteral("héllo".to_string()));
    assert_eq!(toks[0].span, (0, 8));
}

#[test]
fn tokens_carry_their_line_and_column() {
    let locs: Vec<(usize, usize)> =
        tokenize("a\n  bc // x\n\nd").into_iter().map(|t| (t.line, t.column)).collect();
    assert_eq!(locs, vec![(1, 1), (2, 3), (4, 1), (4, 2)]);
    // Columns count characters: `é` is one column and two bytes.
    let toks = tokenize("\"é\" x");
    assert_eq!((toks[1].line, toks[1].column), (1, 5));
    assert_eq!(toks[1].span, (4, 6));
}
