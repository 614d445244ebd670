use microc::lexer::{LexErrorKind, Lexer, Token, TokenType};

fn token_types(src: &str) -> Vec<TokenType> {
    let mut lexer = Lexer::new(src);
    let tokens = lexer.tokenize().expect("lexing should succeed");
    tokens.into_iter().map(|t| t.token_type).collect()
}

#[test]
fn lexer_handle_a_plus_b() {
    let types = token_types("  begin read(a, b); write(a + b); end");
    let expected = vec![
        TokenType::Begin,
        TokenType::Read,
        TokenType::LeftParen,
        TokenType::Identifier { name: "a".to_string() },
        TokenType::Comma,
        TokenType::Identifier { name: "b".to_string() },
        TokenType::RightParen,
        TokenType::Semicolon,
        TokenType::Write,
        TokenType::LeftParen,
        TokenType::Identifier { name: "a".to_string() },
        TokenType::OpPlus,
        TokenType::Identifier { name: "b".to_string() },
        TokenType::RightParen,
        TokenType::Semicolon,
        TokenType::End,
    ];
    assert_eq!(types, expected);
}

#[test]
fn handle_white_space() {
    let mut lexer = Lexer::new("\n\n        begin end\n\n\n        ");
    loop {
        let token = lexer.next_token().expect("no lexical failure here");
        if token.token_type == TokenType::ScanEof {
            let mut count = 3;
            while count > 0 {
                assert_eq!(
                    lexer.next_token().expect("end of text stays quiet").token_type,
                    TokenType::ScanEof
                );
                count -= 1;
            }
            break;
        }
    }
}

#[test]
fn handle_nonexist_char() {
    // The unrecognized run `****` starts at line 2, column 15, and the
    // scan for context stops at the expected character `(`.
    let mut lexer = Lexer::new("\n        begin ****()\n        end\n        ");
    let err = lexer.tokenize().expect_err("the asterisks have no token");
    assert_eq!(err.kind, LexErrorKind::UnexpectedChar);
    assert_eq!(err.line, 2);
    assert_eq!(err.column, 15);
    assert_eq!(err.length, 4);
    assert_eq!(
        err.message,
        "microc: [syntax error] unexpected char(s)\n --> 2:15\n        begin ****()\n              ^^^^\n"
    );
}

#[test]
fn digit_run_then_identifier() {
    // A token cannot start with a digit and continue as a word: the digit
    // run and the letter run come out as two separate tokens.
    let types = token_types("\n\n        1egin end\n\n\n        ");
    let expected = vec![
        TokenType::IntLiteral { value: 1 },
        TokenType::Identifier { name: "egin".to_string() },
        TokenType::End,
    ];
    assert_eq!(types, expected);
}

#[test]
fn line_comment_is_filtered() {
    let types = token_types("begin -- a comment with read(x) inside\nend");
    assert_eq!(types, vec![TokenType::Begin, TokenType::End]);
}

#[test]
fn minus_and_assign_tokens() {
    let types = token_types("a := b - 7");
    let expected = vec![
        TokenType::Identifier { name: "a".to_string() },
        TokenType::OpAssign,
        TokenType::Identifier { name: "b".to_string() },
        TokenType::OpMinus,
        TokenType::IntLiteral { value: 7 },
    ];
    assert_eq!(types, expected);
}

#[test]
fn colon_without_equals_fails() {
    let mut lexer = Lexer::new("begin a : 1; end");
    let err = lexer.tokenize().expect_err("a lone colon is no token");
    assert_eq!(err.kind, LexErrorKind::BadAssignOp);
    assert_eq!(err.line, 1);
    assert_eq!(err.column, 9);
    assert_eq!(err.length, 1);
}

#[test]
fn int_literal_at_limit() {
    let types = token_types("2147483647");
    assert_eq!(types, vec![TokenType::IntLiteral { value: 2147483647 }]);
}

#[test]
fn int_literal_overflow_fails() {
    let mut lexer = Lexer::new("begin a := 2147483648; end");
    let err = lexer.tokenize().expect_err("the literal exceeds 32 bits");
    assert_eq!(err.kind, LexErrorKind::IntLiteralOverflow);
    assert_eq!(err.line, 1);
    assert_eq!(err.column, 12);
    assert_eq!(err.length, 10);
}

#[test]
fn unmatched_end_still_terminates() {
    // A region without its `end` still yields a deterministic, finite
    // token sequence.
    let types = token_types("begin read(a); write(a)");
    assert_eq!(types.len(), 10);
    assert_eq!(types[0], TokenType::Begin);
    assert_eq!(types[9], TokenType::RightParen);
}

#[test]
fn token_positions_are_recorded() {
    let mut lexer = Lexer::new("begin\n  x := 1;\nend");
    let tokens = lexer.tokenize().expect("lexing should succeed");
    // `x` sits on line 2, column 3, at character offset 8, length 1.
    assert_eq!(tokens[1].token_type, TokenType::Identifier { name: "x".to_string() });
    assert_eq!(tokens[1].line, 2);
    assert_eq!(tokens[1].column, 3);
    assert_eq!(tokens[1].offset, 8);
    assert_eq!(tokens[1].length, 1);
}

#[test]
fn token_constructors() {
    assert_eq!(Token::unknown().token_type, TokenType::Unknown);
    assert_eq!(Token::eof().token_type, TokenType::ScanEof);
    let mut t = Token::unknown();
    t.set_type(TokenType::Comma);
    t.set_length(1);
    assert_eq!(t.token_type, TokenType::Comma);
    assert_eq!(t.length, 1);
}

#[test]
fn token_type_names() {
    assert_eq!(TokenType::Begin.as_str(), "begin");
    assert_eq!(TokenType::OpAssign.as_str(), ":=");
    assert_eq!(TokenType::Identifier { name: "q".to_string() }.as_str(), "Identifier");
    assert_eq!(TokenType::ScanEof.as_str(), "ScanEof");
}

#[test]
fn unicode_whitespace_is_skipped() {
    // U+2028 (line separator) lies in the fixed whitespace table.
    let types = token_types("begin\u{2028}end");
    assert_eq!(types, vec![TokenType::Begin, TokenType::End]);
}
