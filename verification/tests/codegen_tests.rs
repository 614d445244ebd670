use microc::ast::{ASTBuilder, ExprAST, ExprKind};
use microc::codegen::{CodeGenerator, GeneratorError, Operand, main_epilogue, main_prologue,
    prelude};
use microc::lexer::Lexer;

fn parse_program(src: &str) -> Vec<Box<ExprAST>> {
    let mut lexer = Lexer::new(src);
    let tokens = lexer.tokenize().expect("lexing should succeed");
    let mut builder = ASTBuilder::new(tokens);
    builder.parse().expect("parsing should succeed")
}

fn compile(src: &str) -> (CodeGenerator, String) {
    let mut cg = CodeGenerator::new();
    let out = cg.generate(parse_program(src)).expect("generation should succeed");
    (cg, out)
}

#[test]
fn codegen_handle_a_plus_b() {
    let mut src = String::from("-- Input: 1, Expected Output: 1326\nbegin\nread (A0);\n");
    for i in 1..=50 {
        src.push_str(&format!("A{} := A{} + 1;\n", i, i - 1));
    }
    src.push_str("write(");
    for i in 0..=50 {
        if i > 0 {
            src.push_str("+");
        }
        src.push_str(&format!("A{}", i));
    }
    src.push_str(");\nend");
    let (cg, out) = compile(&src);
    // 51 variables, 50 assignment temporaries and 50 addition
    // temporaries: the frame ends at 32 + 4 * 151.
    assert_eq!(cg.frame_pointer, 636);
    assert!(out.contains("addi $sp, $sp, -636"));
    assert!(out.contains("jal read"));
    assert!(out.contains("jal write"));
}

#[test]
fn read_then_write_emits_in_order() {
    // `begin read(a); write(a); end`: the read stub call, the store of its
    // result into a's slot, the load of that slot, the write stub call.
    let (cg, _out) = compile("begin read(a); write(a); end");
    assert_eq!(
        cg.code,
        vec![
            "jal read".to_string(),
            "sw $v0, 32($fp)".to_string(),
            "lw $a0, 32($fp)".to_string(),
            "jal write".to_string(),
        ]
    );
}

#[test]
fn assignment_of_constant_sum() {
    // `begin a := 1 + 2; end`: both immediates staged in the scratch
    // registers, added, stored to the synthetic slot, reloaded, stored to
    // a's slot - and no syscall stub calls at all.
    let (cg, out) = compile("begin a := 1 + 2; end");
    assert_eq!(
        cg.code,
        vec![
            "li $t0, 1".to_string(),
            "li $t1, 2".to_string(),
            "add $t0, $t0, $t1".to_string(),
            "sw $t0, 36($fp)".to_string(),
            "lw $t0, 36($fp)".to_string(),
            "sw $t0, 32($fp)".to_string(),
        ]
    );
    assert!(!out.contains("jal read"));
    assert!(!out.contains("jal write"));
}

#[test]
fn same_variable_keeps_its_offset() {
    // Every occurrence of `a` resolves to offset 32; the temporary of the
    // addition gets its own slot and never shadows it.
    let (cg, _out) = compile("begin read(a); a := a + 1; write(a); end");
    assert_eq!(cg.symbol_map, vec![("a".to_string(), 32)]);
    assert_eq!(
        cg.code,
        vec![
            "jal read".to_string(),
            "sw $v0, 32($fp)".to_string(),
            "lw $t0, 32($fp)".to_string(),
            "li $t1, 1".to_string(),
            "add $t0, $t0, $t1".to_string(),
            "sw $t0, 36($fp)".to_string(),
            "lw $t0, 36($fp)".to_string(),
            "sw $t0, 32($fp)".to_string(),
            "lw $a0, 32($fp)".to_string(),
            "jal write".to_string(),
        ]
    );
}

#[test]
fn fresh_variables_get_consecutive_offsets() {
    // Distinct variables first referenced in order get 32, 36, 40: no
    // gaps, no reuse.
    let (cg, _out) = compile("begin read(x); read(y); read(z); end");
    assert_eq!(
        cg.symbol_map,
        vec![("x".to_string(), 32), ("y".to_string(), 36), ("z".to_string(), 40)]
    );
    assert_eq!(cg.frame_pointer, 44);
}

#[test]
fn subtraction_emits_sub() {
    let (cg, _out) = compile("begin a := 5 - 3; end");
    assert_eq!(cg.code[2], "sub $t0, $t0, $t1");
}

#[test]
fn write_of_immediate() {
    let (cg, _out) = compile("begin write(7); end");
    assert_eq!(cg.code, vec!["li $a0, 7".to_string(), "jal write".to_string()]);
}

#[test]
fn read_of_immediate_emits_nothing() {
    // A `read` argument that is no frame slot is skipped.
    let (cg, _out) = compile("begin read(5); end");
    assert_eq!(cg.code, Vec::<String>::new());
}

#[test]
fn output_is_wrapped_in_fixed_boilerplate() {
    let (_cg, out) = compile("begin write(1); end");
    let expected = format!(
        "{}    li $a0, 1\n    jal write\n{}{}",
        main_prologue(32),
        main_epilogue(32),
        prelude()
    );
    assert_eq!(out, expected);
}

#[test]
fn prologue_and_epilogue_text() {
    assert_eq!(
        main_prologue(32),
        "\n    .text\n    .globl main\nmain:\n    # prologue area\n    addi $sp, $sp, -32\n    sw $ra, 20($sp)\n    sw $fp, 28($sp)\n    move $fp, $sp\n"
    );
    assert_eq!(
        main_epilogue(40),
        "\n    # epilogue area\n    move $sp, $fp\n    lw $fp, 28($sp)\n    lw $ra, 20($sp)\n    addi $sp, $sp, 40\n    li $v0 10\n    syscall\n"
    );
    assert!(prelude().starts_with("# Module : main\n"));
    assert!(prelude().contains(".globl read"));
    assert!(prelude().contains(".globl write"));
}

#[test]
fn bare_expression_statement_is_rejected() {
    let mut cg = CodeGenerator::new();
    let err = cg.generate(parse_program("begin 1 + 2; end")).expect_err(
        "a bare arithmetic statement is no syscall",
    );
    assert_eq!(err, GeneratorError::UnsupportedStatement);
}

#[test]
fn syscall_in_operand_position_is_rejected() {
    let mut cg = CodeGenerator::new();
    let err = cg.generate(parse_program("begin a := read(); end")).expect_err(
        "a syscall cannot be an operand",
    );
    assert_eq!(err, GeneratorError::UnsupportedExpression);
}

#[test]
fn codegen_returns_operands() {
    let mut cg = CodeGenerator::new();
    let lit = Box::new(ExprAST { kind: ExprKind::IntLiteralExprAST { value: -9 } });
    assert_eq!(cg.codegen(lit).expect("a literal is an immediate"), Operand::IMM(-9));
    let var = Box::new(ExprAST { kind: ExprKind::VariableExprAST { name: "v".to_string() } });
    assert_eq!(cg.codegen(var).expect("a variable gets a slot"), Operand::MEM(32));
    let var2 = Box::new(ExprAST { kind: ExprKind::VariableExprAST { name: "v".to_string() } });
    assert_eq!(cg.codegen(var2).expect("the slot is stable"), Operand::MEM(32));
    assert_eq!(cg.frame_pointer, 36);
}

#[test]
fn negative_immediate_renders_with_sign() {
    let mut cg = CodeGenerator::new();
    let stmt = Box::new(ExprAST {
        kind: ExprKind::SyscallExprAST {
            calle: microc::ast::SyscallKind::Write,
            args: vec![ExprAST { kind: ExprKind::IntLiteralExprAST { value: -2147483648 } }],
        },
    });
    cg.generate_functions(stmt).expect("a write of an immediate");
    assert_eq!(cg.code[0], "li $a0, -2147483648");
}
