use microc::ast::{ASTBuilder, BinaryOpKind, ExprAST, ExprKind, SyscallKind};
use microc::lexer::{Lexer, Token, TokenType};

fn tokens_of(src: &str) -> Vec<Token> {
    let mut lexer = Lexer::new(src);
    lexer.tokenize().expect("lexing should succeed")
}

fn parse_all(src: &str) -> Vec<Box<ExprAST>> {
    let mut builder = ASTBuilder::new(tokens_of(src));
    builder.parse().expect("parsing should succeed")
}

fn var_name(e: &ExprAST) -> &str {
    match &e.kind {
        ExprKind::VariableExprAST { name } => name.as_str(),
        _ => panic!("not a variable"),
    }
}

#[test]
fn ast_handle_a_plus_b() {
    let stmts = parse_all("begin read(a, b); write(a + b); end");
    assert_eq!(stmts.len(), 2);
    match &stmts[0].kind {
        ExprKind::SyscallExprAST { calle, args } => {
            assert!(matches!(calle, SyscallKind::Read));
            assert_eq!(args.len(), 2);
            assert_eq!(var_name(&args[0]), "a");
            assert_eq!(var_name(&args[1]), "b");
        },
        _ => panic!("expected a read syscall"),
    }
    match &stmts[1].kind {
        ExprKind::SyscallExprAST { calle, args } => {
            assert!(matches!(calle, SyscallKind::Write));
            assert_eq!(args.len(), 1);
            match &args[0].kind {
                ExprKind::BinaryExprAST { op, lhs, rhs } => {
                    assert!(matches!(op, BinaryOpKind::Add));
                    assert_eq!(var_name(lhs), "a");
                    assert_eq!(var_name(rhs), "b");
                },
                _ => panic!("expected a binary expression"),
            }
        },
        _ => panic!("expected a write syscall"),
    }
}

#[test]
fn handle_assign_a() {
    let stmts = parse_all("begin a := 1 + 2; end");
    assert_eq!(stmts.len(), 1);
    match &stmts[0].kind {
        ExprKind::AssignmentAST { var, assign } => {
            assert_eq!(var_name(var), "a");
            match &assign.kind {
                ExprKind::BinaryExprAST { op, lhs, rhs } => {
                    assert!(matches!(op, BinaryOpKind::Add));
                    assert!(matches!(lhs.kind, ExprKind::IntLiteralExprAST { value: 1 }));
                    assert!(matches!(rhs.kind, ExprKind::IntLiteralExprAST { value: 2 }));
                },
                _ => panic!("expected a binary expression"),
            }
        },
        _ => panic!("expected an assignment"),
    }
}

#[test]
fn addition_is_left_associative() {
    // `a + b + c` folds from the left: `(a + b) + c`, never `a + (b + c)`.
    let mut builder = ASTBuilder::new(tokens_of("a + b + c"));
    builder.next();
    let expr = builder.parse_expression().expect("a well-formed expression");
    match &expr.kind {
        ExprKind::BinaryExprAST { op, lhs, rhs } => {
            assert!(matches!(op, BinaryOpKind::Add));
            assert_eq!(var_name(rhs), "c");
            match &lhs.kind {
                ExprKind::BinaryExprAST { op: inner_op, lhs: ll, rhs: lr } => {
                    assert!(matches!(inner_op, BinaryOpKind::Add));
                    assert_eq!(var_name(ll), "a");
                    assert_eq!(var_name(lr), "b");
                },
                _ => panic!("the left side must hold the first addition"),
            }
        },
        _ => panic!("expected a binary expression"),
    }
}

#[test]
fn mixed_operators_fold_left() {
    // `1 - 2 + 3` is `(1 - 2) + 3`: both operators share one tier.
    let mut builder = ASTBuilder::new(tokens_of("1 - 2 + 3"));
    builder.next();
    let expr = builder.parse_expression().expect("a well-formed expression");
    match &expr.kind {
        ExprKind::BinaryExprAST { op, lhs, rhs } => {
            assert!(matches!(op, BinaryOpKind::Add));
            assert!(matches!(rhs.kind, ExprKind::IntLiteralExprAST { value: 3 }));
            match &lhs.kind {
                ExprKind::BinaryExprAST { op: inner_op, .. } => {
                    assert!(matches!(inner_op, BinaryOpKind::Sub));
                },
                _ => panic!("the left side must hold the subtraction"),
            }
        },
        _ => panic!("expected a binary expression"),
    }
}

#[test]
fn parenthesized_expression() {
    let mut builder = ASTBuilder::new(tokens_of("(a + 1)"));
    builder.next();
    let expr = builder.parse_expression().expect("a well-formed expression");
    assert!(matches!(expr.kind, ExprKind::BinaryExprAST { .. }));
}

#[test]
fn junk_outside_region_is_skipped() {
    let stmts = parse_all("x ; 17 begin a := 1; end ) ,");
    assert_eq!(stmts.len(), 1);
    assert!(matches!(stmts[0].kind, ExprKind::AssignmentAST { .. }));
}

#[test]
fn empty_syscall_argument_list() {
    let stmts = parse_all("begin read(); end");
    match &stmts[0].kind {
        ExprKind::SyscallExprAST { calle, args } => {
            assert!(matches!(calle, SyscallKind::Read));
            assert_eq!(args.len(), 0);
        },
        _ => panic!("expected a read syscall"),
    }
}

#[test]
fn missing_assign_operator_is_rejected() {
    let mut builder = ASTBuilder::new(tokens_of("begin a 1; end"));
    let err = builder.parse().expect_err("the `:=` is missing");
    assert_eq!(err.found, TokenType::IntLiteral { value: 1 });
}

#[test]
fn missing_comma_is_rejected() {
    let mut builder = ASTBuilder::new(tokens_of("begin read(a b); end"));
    let err = builder.parse().expect_err("the comma is missing");
    assert_eq!(err.found, TokenType::Identifier { name: "b".to_string() });
}

#[test]
fn unclosed_paren_is_rejected() {
    let mut builder = ASTBuilder::new(tokens_of("begin a := (1 + 2; end"));
    let err = builder.parse().expect_err("the parenthesis never closes");
    assert_eq!(err.found, TokenType::Semicolon);
}

#[test]
fn malformed_primary_is_rejected() {
    let mut builder = ASTBuilder::new(tokens_of("begin a := ; end"));
    let err = builder.parse().expect_err("an expression cannot start at `;`");
    assert_eq!(err.found, TokenType::Semicolon);
}

#[test]
fn parse_error_carries_position() {
    let mut builder = ASTBuilder::new(tokens_of("begin\n  read(a b);\nend"));
    let err = builder.parse().expect_err("the comma is missing");
    assert_eq!(err.line, 2);
    assert_eq!(err.column, 10);
}

#[test]
fn missing_end_does_not_hang() {
    // Parsing terminates even when the region never closes: the stream's
    // end ends the statement list.
    let stmts = parse_all("begin read(a); write(a)");
    assert_eq!(stmts.len(), 2);
}
