//! Code generation: walks each statement tree once, assigns every distinct
//! variable (and every intermediate binary result) its own frame-pointer
//! relative slot, and emits textual instructions for a simple stack
//! machine; the body is wrapped in a fixed prologue, epilogue and runtime
//! prelude.

use vstd::prelude::*;

use crate::ast::{BinaryOpKind, ExprAST, ExprKind, ExprV, SyscallKind, expr_view, exprs_view_rec,
    lemma_exprs_view_rec, stmts_view};
use crate::text;

verus! {

/// A generated value's location: a frame-pointer relative memory slot, or
/// an immediate.
#[derive(Debug, Clone, Copy, PartialEq, Eq, Structural)]
pub enum Operand {
    MEM(u32),
    IMM(i32),
}

/// The mathematical shape of an operand.
pub enum OperandV {
    Mem { offset: int },
    Imm { value: int },
}

impl View for Operand {
    type V = OperandV;

    open spec fn view(&self) -> OperandV {
        match self {
            Operand::MEM(offset) => OperandV::Mem { offset: *offset as int },
            Operand::IMM(value) => OperandV::Imm { value: *value as int },
        }
    }
}

/// How code generation fails.
#[derive(Debug, Clone, Copy, PartialEq, Eq, Structural)]
pub enum GeneratorError {
    /// A top-level statement that is neither a syscall nor an assignment.
    UnsupportedStatement,
    /// An expression operand that is itself a syscall or an assignment.
    UnsupportedExpression,
    /// The frame grew past the 32-bit range of the frame pointer.
    FrameOverflow,
}

/// The generator's mathematical state: the next free frame offset, the
/// symbol table in insertion order, and the emitted instruction lines.
pub struct GenState {
    pub frame_pointer: int,
    pub symbols: Seq<(Seq<char>, int)>,
    pub code: Seq<Seq<char>>,
}

/// The shapes of the symbol-table entries.
pub open spec fn syms_view(s: Seq<(String, u32)>) -> Seq<(Seq<char>, int)> {
    Seq::new(s.len(), |i: int| (s[i].0@, s[i].1 as int))
}

/// The shapes of the instruction lines.
pub open spec fn code_view(s: Seq<String>) -> Seq<Seq<char>> {
    Seq::new(s.len(), |i: int| s[i]@)
}

/// The generator's structural invariant: the frame pointer starts at the
/// fixed base 32 (reserving the saved registers' space), stays a multiple
/// of four within the 32-bit range, and every symbol holds an offset below
/// it, assigned in strictly increasing order, one distinct name each.
pub open spec fn gen_wf(g: GenState) -> bool {
    &&& 32 <= g.frame_pointer <= u32::MAX
    &&& g.frame_pointer % 4 == 0
    &&& forall|i: int|
        0 <= i < g.symbols.len() ==> 32 <= (#[trigger] g.symbols[i]).1 < g.frame_pointer
            && g.symbols[i].1 % 4 == 0
    &&& forall|i: int, j: int|
        0 <= i < j < g.symbols.len() ==> (#[trigger] g.symbols[i]).1 < (
        #[trigger] g.symbols[j]).1
    &&& forall|i: int, j: int|
        0 <= i < j < g.symbols.len() ==> (#[trigger] g.symbols[i]).0 != (
        #[trigger] g.symbols[j]).0
}

/// The frame offset bound to `name`, if any: the first binding wins (the
/// table never holds two).
pub open spec fn spec_lookup(syms: Seq<(Seq<char>, int)>, name: Seq<char>) -> Option<int>
    decreases syms.len(),
{
    if syms.len() == 0 {
        None
    } else if syms[0].0 == name {
        Some(syms[0].1)
    } else {
        spec_lookup(syms.drop_first(), name)
    }
}

/// An absent name matches no entry.
pub proof fn lemma_lookup_none_absent(syms: Seq<(Seq<char>, int)>, name: Seq<char>)
    requires
        spec_lookup(syms, name) is None,
    ensures
        forall|i: int| 0 <= i < syms.len() ==> (#[trigger] syms[i]).0 != name,
    decreases syms.len(),
{
    if syms.len() > 0 {
        lemma_lookup_none_absent(syms.drop_first(), name);
        assert forall|i: int| 0 <= i < syms.len() implies (#[trigger] syms[i]).0 != name by {
            if i > 0 {
                assert(syms.drop_first()[i - 1] == syms[i]);
            }
        }
    }
}

/// Adding a binding leaves every earlier lookup unchanged and serves the
/// new name when it was absent.
pub proof fn lemma_lookup_push(syms: Seq<(Seq<char>, int)>, name: Seq<char>, entry: (Seq<char>, int))
    ensures
        spec_lookup(syms.push(entry), name) == (match spec_lookup(syms, name) {
            Some(v) => Some(v),
            None => if entry.0 == name {
                Some(entry.1)
            } else {
                None
            },
        }),
    decreases syms.len(),
{
    if syms.len() == 0 {
        assert(syms.push(entry)[0] == entry);
        assert(syms.push(entry).drop_first() =~= Seq::empty());
    } else {
        assert(syms.push(entry)[0] == syms[0]);
        assert(syms.push(entry).drop_first() =~= syms.drop_first().push(entry));
        lemma_lookup_push(syms.drop_first(), name, entry);
    }
}

/// The frame-offset instruction `{prefix}{offset}($fp)`.
pub open spec fn spec_mem_instr(prefix: Seq<char>, offset: int) -> Seq<char> {
    prefix + text::spec_dec_digits(offset) + "($fp)"@
}

/// The immediate instruction `{prefix}{value}`.
pub open spec fn spec_imm_instr(prefix: Seq<char>, value: int) -> Seq<char> {
    prefix + text::spec_dec_int(value)
}

/// The instruction staging an operand: a load from its frame slot, or a
/// load-immediate.
pub open spec fn spec_load(lw_prefix: Seq<char>, li_prefix: Seq<char>, op: OperandV) -> Seq<
    char,
> {
    match op {
        OperandV::Mem { offset } => spec_mem_instr(lw_prefix, offset),
        OperandV::Imm { value } => spec_imm_instr(li_prefix, value),
    }
}

/// The combining instruction of a binary operator.
pub open spec fn spec_op_instr(op: BinaryOpKind) -> Seq<char> {
    match op {
        BinaryOpKind::Add => "add $t0, $t0, $t1"@,
        BinaryOpKind::Sub => "sub $t0, $t0, $t1"@,
    }
}

/// Evaluating one expression: a variable resolves to its slot, allocating
/// the next free offset on first sight (the frame grows by four); a
/// literal is an immediate; a binary expression stages both operands in
/// the two scratch registers, combines them, and stores the result in a
/// freshly allocated slot of its own. Syscalls and assignments cannot be
/// operands. Fails with `FrameOverflow` exactly when an allocation would
/// push the frame pointer past the 32-bit range.
pub open spec fn spec_codegen(g: GenState, e: ExprV) -> Result<(OperandV, GenState), GeneratorError>
    decreases e,
{
    match e {
        ExprV::Variable { name } => match spec_lookup(g.symbols, name) {
            Some(offset) => Ok((OperandV::Mem { offset }, g)),
            None => {
                if g.frame_pointer + 4 <= u32::MAX {
                    Ok(
                        (
                            OperandV::Mem { offset: g.frame_pointer },
                            GenState {
                                frame_pointer: g.frame_pointer + 4,
                                symbols: g.symbols.push((name, g.frame_pointer)),
                                code: g.code,
                            },
                        ),
                    )
                } else {
                    Err(GeneratorError::FrameOverflow)
                }
            },
        },
        ExprV::IntLiteral { value } => Ok((OperandV::Imm { value }, g)),
        ExprV::Binary { op, lhs, rhs } => match spec_codegen(g, *lhs) {
            Err(err) => Err(err),
            Ok((l_op, g1)) => match spec_codegen(g1, *rhs) {
                Err(err) => Err(err),
                Ok((r_op, g2)) => {
                    if g2.frame_pointer + 4 <= u32::MAX {
                        Ok(
                            (
                                OperandV::Mem { offset: g2.frame_pointer },
                                GenState {
                                    frame_pointer: g2.frame_pointer + 4,
                                    symbols: g2.symbols,
                                    code: g2.code + seq![
                                        spec_load("lw $t0, "@, "li $t0, "@, l_op),
                                        spec_load("lw $t1, "@, "li $t1, "@, r_op),
                                        spec_op_instr(op),
                                        spec_mem_instr("sw $t0, "@, g2.frame_pointer),
                                    ],
                                },
                            ),
                        )
                    } else {
                        Err(GeneratorError::FrameOverflow)
                    }
                },
            },
        },
        _ => Err(GeneratorError::UnsupportedExpression),
    }
}

/// A `read` syscall: for each argument that resolves to a frame slot, call
/// the read stub and store its result there; immediate arguments emit
/// nothing.
pub open spec fn spec_gen_read_args(g: GenState, args: Seq<ExprV>) -> Result<
    GenState,
    GeneratorError,
>
    decreases args.len(),
{
    if args.len() == 0 {
        Ok(g)
    } else {
        match spec_codegen(g, args[0]) {
            Err(err) => Err(err),
            Ok((op, g1)) => {
                let g2 = match op {
                    OperandV::Mem { offset } => GenState {
                        code: g1.code + seq![
                            "jal read"@,
                            spec_mem_instr("sw $v0, "@, offset),
                        ],
                        ..g1
                    },
                    OperandV::Imm { value } => g1,
                };
                spec_gen_read_args(g2, args.drop_first())
            },
        }
    }
}

/// A `write` syscall: each argument is evaluated, staged in the argument
/// register, and handed to the write stub.
pub open spec fn spec_gen_write_args(g: GenState, args: Seq<ExprV>) -> Result<
    GenState,
    GeneratorError,
>
    decreases args.len(),
{
    if args.len() == 0 {
        Ok(g)
    } else {
        match spec_codegen(g, args[0]) {
            Err(err) => Err(err),
            Ok((op, g1)) => {
                let g2 = GenState {
                    code: g1.code + seq![
                        spec_load("lw $a0, "@, "li $a0, "@, op),
                        "jal write"@,
                    ],
                    ..g1
                };
                spec_gen_write_args(g2, args.drop_first())
            },
        }
    }
}

/// One top-level statement: a `read` or `write` syscall, or an assignment
/// (left side resolved first, right side evaluated, result staged and
/// stored). Anything else is an internal-invariant violation.
pub open spec fn spec_gen_stmt(g: GenState, e: ExprV) -> Result<GenState, GeneratorError> {
    match e {
        ExprV::Syscall { calle: SyscallKind::Read, args } => spec_gen_read_args(g, args),
        ExprV::Syscall { calle: SyscallKind::Write, args } => spec_gen_write_args(g, args),
        ExprV::Assignment { var, assign } => match spec_codegen(g, *var) {
            Err(err) => Err(err),
            Ok((vop, g1)) => {
                let left = match vop {
                    OperandV::Mem { offset } => offset,
                    OperandV::Imm { value } => 0,
                };
                match spec_codegen(g1, *assign) {
                    Err(err) => Err(err),
                    Ok((aop, g2)) => Ok(
                        GenState {
                            code: g2.code + seq![
                                spec_load("lw $t0, "@, "li $t0, "@, aop),
                                spec_mem_instr("sw $t0, "@, left),
                            ],
                            ..g2
                        },
                    ),
                }
            },
        },
        _ => Err(GeneratorError::UnsupportedStatement),
    }
}

/// The statement list, in order, stopping at the first failure.
pub open spec fn spec_gen_stmts(g: GenState, stmts: Seq<ExprV>) -> Result<
    GenState,
    GeneratorError,
>
    decreases stmts.len(),
{
    if stmts.len() == 0 {
        Ok(g)
    } else {
        match spec_gen_stmt(g, stmts[0]) {
            Err(err) => Err(err),
            Ok(g1) => spec_gen_stmts(g1, stmts.drop_first()),
        }
    }
}

/// The emitted body: each instruction line indented by four spaces, one
/// per line.
pub open spec fn spec_body_text(lines: Seq<Seq<char>>) -> Seq<char>
    decreases lines.len(),
{
    if lines.len() == 0 {
        Seq::empty()
    } else {
        spec_body_text(lines.drop_last()) + "    "@ + lines.last() + "\n"@
    }
}

/// The fixed `main` prologue, sized to the final frame.
pub open spec fn spec_main_prologue(stackframe_size: int) -> Seq<char> {
    "\n    .text\n    .globl main\nmain:\n    # prologue area\n    addi $sp, $sp, -"@
        + text::spec_dec_digits(stackframe_size)
        + "\n    sw $ra, 20($sp)\n    sw $fp, 28($sp)\n    move $fp, $sp\n"@
}

/// The fixed `main` epilogue: frame teardown and program exit.
pub open spec fn spec_main_epilogue(stackframe_size: int) -> Seq<char> {
    "\n    # epilogue area\n    move $sp, $fp\n    lw $fp, 28($sp)\n    lw $ra, 20($sp)\n    addi $sp, $sp, "@
        + text::spec_dec_digits(stackframe_size) + "\n    li $v0 10\n    syscall\n"@
}

/// The fixed runtime prelude defining the `read` and `write` stubs and
/// their static data.
pub open spec fn spec_prelude() -> Seq<char> {
    "# Module : main\n    .text\n    .globl read\nread:\n    # call read integer\n    li $v0 5\n    syscall\n    jr $ra\n    .data\ndata_section_$$1:\n    .word '\\n'\n    .text\n    .globl write\nwrite:\n    lw $t0, data_section_$$1\n    li $v0, 1\n    syscall\n    move $a0, $t0\n    li $v0, 11\n    syscall\n    jr $ra\n"@
}

/// The whole output: prologue, indented body, epilogue, prelude.
pub open spec fn spec_output(g: GenState) -> Seq<char> {
    spec_main_prologue(g.frame_pointer) + spec_body_text(g.code) + spec_main_epilogue(
        g.frame_pointer,
    ) + spec_prelude()
}

/// The whole compilation of a statement list from generator state `g`.
pub open spec fn spec_generate(g: GenState, stmts: Seq<ExprV>) -> Result<
    (Seq<char>, GenState),
    GeneratorError,
> {
    match spec_gen_stmts(g, stmts) {
        Err(err) => Err(err),
        Ok(g1) => Ok((spec_output(g1), g1)),
    }
}

/// The fixed `main` prologue, sized to the final frame.
pub fn main_prologue(stackframe_size: u32) -> (r: String)
    ensures
        r@ == spec_main_prologue(stackframe_size as int),
{
    let mut s = String::new();
    s.append("\n    .text\n    .globl main\nmain:\n    # prologue area\n    addi $sp, $sp, -");
    let n = text::u32_to_string(stackframe_size);
    s.append(n.as_str());
    s.append("\n    sw $ra, 20($sp)\n    sw $fp, 28($sp)\n    move $fp, $sp\n");
    s
}

/// The fixed `main` epilogue: frame teardown and program exit.
pub fn main_epilogue(stackframe_size: u32) -> (r: String)
    ensures
        r@ == spec_main_epilogue(stackframe_size as int),
{
    let mut s = String::new();
    s.append(
        "\n    # epilogue area\n    move $sp, $fp\n    lw $fp, 28($sp)\n    lw $ra, 20($sp)\n    addi $sp, $sp, ",
    );
    let n = text::u32_to_string(stackframe_size);
    s.append(n.as_str());
    s.append("\n    li $v0 10\n    syscall\n");
    s
}

/// The fixed runtime prelude defining the `read` and `write` stubs and
/// their static data.
pub fn prelude() -> (r: &'static str)
    ensures
        r@ == spec_prelude(),
{
    "# Module : main\n    .text\n    .globl read\nread:\n    # call read integer\n    li $v0 5\n    syscall\n    jr $ra\n    .data\ndata_section_$$1:\n    .word '\\n'\n    .text\n    .globl write\nwrite:\n    lw $t0, data_section_$$1\n    li $v0, 1\n    syscall\n    move $a0, $t0\n    li $v0, 11\n    syscall\n    jr $ra\n"
}

/// The code generator: the fixed frame base, the running next-free frame
/// offset, the symbol table in insertion order, and the emitted
/// instruction lines.
#[derive(Debug)]
pub struct CodeGenerator {
    pub frame_size: u32,
    pub frame_pointer: u32,
    pub symbol_map: Vec<(String, u32)>,
    pub code: Vec<String>,
}

impl View for CodeGenerator {
    type V = GenState;

    open spec fn view(&self) -> GenState {
        GenState {
            frame_pointer: self.frame_pointer as int,
            symbols: syms_view(self.symbol_map@),
            code: code_view(self.code@),
        }
    }
}

impl CodeGenerator {
    /// The generator's structural invariant.
    pub open spec fn wf(&self) -> bool {
        &&& self.frame_size == 32
        &&& gen_wf(self@)
    }

    /// A fresh generator: the frame base reserves space for the saved
    /// return address and frame pointer.
    pub fn new() -> (c: CodeGenerator)
        ensures
            c.wf(),
            c@ == (GenState {
                frame_pointer: 32,
                symbols: Seq::<(Seq<char>, int)>::empty(),
                code: Seq::<Seq<char>>::empty(),
            }),
    {
        let c = CodeGenerator {
            frame_size: 32,
            frame_pointer: 32,
            symbol_map: Vec::new(),
            code: Vec::new(),
        };
        proof {
            assert(syms_view(c.symbol_map@) =~= Seq::<(Seq<char>, int)>::empty());
            assert(code_view(c.code@) =~= Seq::<Seq<char>>::empty());
        }
        c
    }

    /// The frame offset bound to `name`, if any.
    fn lookup_symbol(&self, name: &String) -> (r: Option<u32>)
        ensures
            match r {
                Some(off) => spec_lookup(self@.symbols, name@) == Some(off as int),
                None => spec_lookup(self@.symbols, name@) is None,
            },
    {
        let ghost syms = self@.symbols;
        proof {
            assert(syms.skip(0) =~= syms);
        }
        let mut i: usize = 0;
        while i < self.symbol_map.len()
            invariant
                i <= self.symbol_map@.len(),
                syms == syms_view(self.symbol_map@),
                spec_lookup(syms, name@) == spec_lookup(syms.skip(i as int), name@),
            decreases self.symbol_map@.len() - i,
        {
            let entry = &self.symbol_map[i];
            proof {
                assert(syms.skip(i as int)[0] == syms[i as int]);
                assert(syms.skip(i as int).drop_first() =~= syms.skip(i as int + 1));
            }
            if entry.0 == *name {
                return Some(entry.1);
            }
            i = i + 1;
        }
        proof {
            assert(syms.skip(i as int) =~= Seq::<(Seq<char>, int)>::empty());
        }
        None
    }

    /// Appends one fixed instruction line.
    fn push_line(&mut self, line: &str)
        ensures
            final(self).frame_size == old(self).frame_size,
            final(self).frame_pointer == old(self).frame_pointer,
            final(self).symbol_map == old(self).symbol_map,
            final(self)@.code == old(self)@.code + seq![line@],
    {
        self.code.push(String::from_str(line));
        proof {
            assert(code_view(self.code@) =~= code_view(old(self).code@) + seq![line@]);
        }
    }

    /// Appends the frame-offset instruction `{prefix}{offset}($fp)`.
    fn push_mem_instr(&mut self, prefix: &str, offset: u32)
        ensures
            final(self).frame_size == old(self).frame_size,
            final(self).frame_pointer == old(self).frame_pointer,
            final(self).symbol_map == old(self).symbol_map,
            final(self)@.code == old(self)@.code + seq![
                spec_mem_instr(prefix@, offset as int),
            ],
    {
        let mut s = String::new();
        s.append(prefix);
        let n = text::u32_to_string(offset);
        s.append(n.as_str());
        s.append("($fp)");
        self.code.push(s);
        proof {
            assert(code_view(self.code@) =~= code_view(old(self).code@) + seq![
                spec_mem_instr(prefix@, offset as int),
            ]);
        }
    }

    /// Appends the instruction staging an operand: a load from its frame
    /// slot, or a load-immediate.
    fn push_load(&mut self, lw_prefix: &str, li_prefix: &str, op: Operand)
        ensures
            final(self).frame_size == old(self).frame_size,
            final(self).frame_pointer == old(self).frame_pointer,
            final(self).symbol_map == old(self).symbol_map,
            final(self)@.code == old(self)@.code + seq![
                spec_load(lw_prefix@, li_prefix@, op@),
            ],
    {
        match op {
            Operand::MEM(offset) => self.push_mem_instr(lw_prefix, offset),
            Operand::IMM(value) => {
                let mut s = String::new();
                s.append(li_prefix);
                let n = text::i32_to_string(value);
                s.append(n.as_str());
                self.code.push(s);
                proof {
                    assert(code_view(self.code@) =~= code_view(old(self).code@) + seq![
                        spec_imm_instr(li_prefix@, value as int),
                    ]);
                }
            },
        }
    }

    /// Evaluates one expression to an operand, emitting its staging code;
    /// see `spec_codegen`. Fails exactly on a syscall or assignment in
    /// operand position, or on frame overflow.
    #[verifier::rlimit(50)]
    pub fn codegen(&mut self, expr: Box<ExprAST>) -> (r: Result<Operand, GeneratorError>)
        requires
            old(self).wf(),
        ensures
            final(self).wf(),
            match (r, spec_codegen(old(self)@, expr_view(*expr))) {
                (Ok(op), Ok((opv, g))) => op@ == opv && final(self)@ == g,
                (Err(e1), Err(e2)) => e1 == e2,
                _ => false,
            },
        decreases *expr,
    {
        match expr.kind {
            ExprKind::VariableExprAST { name } => {
                let ghost g0 = self@;
                match self.lookup_symbol(&name) {
                    Some(offset) => Ok(Operand::MEM(offset)),
                    None => {
                        if self.frame_pointer > u32::MAX - 4 {
                            return Err(GeneratorError::FrameOverflow);
                        }
                        let offset = self.frame_pointer;
                        proof {
                            lemma_lookup_none_absent(g0.symbols, name@);
                        }
                        self.symbol_map.push((name, offset));
                        self.frame_pointer = self.frame_pointer + 4;
                        proof {
                            assert(syms_view(self.symbol_map@) =~= g0.symbols.push(
                                (expr_view(*expr)->Variable_name, offset as int),
                            ));
                        }
                        Ok(Operand::MEM(offset))
                    },
                }
            },
            ExprKind::IntLiteralExprAST { value } => Ok(Operand::IMM(value)),
            ExprKind::BinaryExprAST { op, lhs, rhs } => {
                let l_op = match self.codegen(lhs) {
                    Ok(o) => o,
                    Err(err) => {
                        return Err(err);
                    },
                };
                let r_op = match self.codegen(rhs) {
                    Ok(o) => o,
                    Err(err) => {
                        return Err(err);
                    },
                };
                let ghost g2 = self@;
                self.push_load("lw $t0, ", "li $t0, ", l_op);
                self.push_load("lw $t1, ", "li $t1, ", r_op);
                match op {
                    BinaryOpKind::Add => self.push_line("add $t0, $t0, $t1"),
                    BinaryOpKind::Sub => self.push_line("sub $t0, $t0, $t1"),
                }
                self.push_mem_instr("sw $t0, ", self.frame_pointer);
                proof {
                    assert(self@.code =~= g2.code + seq![
                        spec_load("lw $t0, "@, "li $t0, "@, l_op@),
                        spec_load("lw $t1, "@, "li $t1, "@, r_op@),
                        spec_op_instr(op),
                        spec_mem_instr("sw $t0, "@, g2.frame_pointer),
                    ]);
                }
                if self.frame_pointer > u32::MAX - 4 {
                    return Err(GeneratorError::FrameOverflow);
                }
                let offset = self.frame_pointer;
                self.frame_pointer = self.frame_pointer + 4;
                Ok(Operand::MEM(offset))
            },
            ExprKind::SyscallExprAST { calle: _, args: _ } => Err(
                GeneratorError::UnsupportedExpression,
            ),
            ExprKind::AssignmentAST { var: _, assign: _ } => Err(
                GeneratorError::UnsupportedExpression,
            ),
        }
    }

    /// The `read` syscall's argument loop; see `spec_gen_read_args`.
    fn gen_read_args(&mut self, args: Vec<ExprAST>) -> (r: Result<(), GeneratorError>)
        requires
            old(self).wf(),
        ensures
            final(self).wf(),
            match (r, spec_gen_read_args(old(self)@, exprs_view_rec(args@))) {
                (Ok(u), Ok(g)) => final(self)@ == g,
                (Err(e1), Err(e2)) => e1 == e2,
                _ => false,
            },
        decreases args@.len(),
    {
        let ghost a_all = args@;
        let mut rest = args;
        if rest.len() == 0 {
            return Ok(());
        }
        let e = rest.remove(0);
        proof {
            assert(rest@ =~= a_all.drop_first());
            lemma_exprs_view_rec(a_all);
            lemma_exprs_view_rec(a_all.drop_first());
            assert(exprs_view_rec(a_all).drop_first() =~= exprs_view_rec(rest@));
            assert(exprs_view_rec(a_all)[0] == expr_view(a_all[0]));
        }
        let op = match self.codegen(Box::new(e)) {
            Ok(o) => o,
            Err(err) => {
                return Err(err);
            },
        };
        let ghost g1 = self@;
        if let Operand::MEM(offset) = op {
            self.push_line("jal read");
            self.push_mem_instr("sw $v0, ", offset);
            proof {
                assert(self@.code =~= g1.code + seq![
                    "jal read"@,
                    spec_mem_instr("sw $v0, "@, offset as int),
                ]);
            }
        }
        self.gen_read_args(rest)
    }

    /// The `write` syscall's argument loop; see `spec_gen_write_args`.
    fn gen_write_args(&mut self, args: Vec<ExprAST>) -> (r: Result<(), GeneratorError>)
        requires
            old(self).wf(),
        ensures
            final(self).wf(),
            match (r, spec_gen_write_args(old(self)@, exprs_view_rec(args@))) {
                (Ok(u), Ok(g)) => final(self)@ == g,
                (Err(e1), Err(e2)) => e1 == e2,
                _ => false,
            },
        decreases args@.len(),
    {
        let ghost a_all = args@;
        let mut rest = args;
        if rest.len() == 0 {
            return Ok(());
        }
        let e = rest.remove(0);
        proof {
            assert(rest@ =~= a_all.drop_first());
            lemma_exprs_view_rec(a_all);
            lemma_exprs_view_rec(a_all.drop_first());
            assert(exprs_view_rec(a_all).drop_first() =~= exprs_view_rec(rest@));
            assert(exprs_view_rec(a_all)[0] == expr_view(a_all[0]));
        }
        let op = match self.codegen(Box::new(e)) {
            Ok(o) => o,
            Err(err) => {
                return Err(err);
            },
        };
        let ghost g1 = self@;
        self.push_load("lw $a0, ", "li $a0, ", op);
        self.push_line("jal write");
        proof {
            assert(self@.code =~= g1.code + seq![
                spec_load("lw $a0, "@, "li $a0, "@, op@),
                "jal write"@,
            ]);
        }
        self.gen_write_args(rest)
    }

    /// Emits the code of one top-level statement; see `spec_gen_stmt`.
    /// Fails exactly when the statement is neither a syscall nor an
    /// assignment, when a syscall or assignment sits in operand position,
    /// or on frame overflow.
    pub fn generate_functions(&mut self, expr: Box<ExprAST>) -> (r: Result<(), GeneratorError>)
        requires
            old(self).wf(),
        ensures
            final(self).wf(),
            match (r, spec_gen_stmt(old(self)@, expr_view(*expr))) {
                (Ok(u), Ok(g)) => final(self)@ == g,
                (Err(e1), Err(e2)) => e1 == e2,
                _ => false,
            },
    {
        match expr.kind {
            ExprKind::SyscallExprAST { calle, args } => match calle {
                SyscallKind::Read => self.gen_read_args(args),
                SyscallKind::Write => self.gen_write_args(args),
            },
            ExprKind::AssignmentAST { var, assign } => {
                let mut left_side: u32 = 0;
                let vop = match self.codegen(var) {
                    Ok(o) => o,
                    Err(err) => {
                        return Err(err);
                    },
                };
                if let Operand::MEM(offset) = vop {
                    left_side = offset;
                }
                let aop = match self.codegen(assign) {
                    Ok(o) => o,
                    Err(err) => {
                        return Err(err);
                    },
                };
                let ghost g2 = self@;
                self.push_load("lw $t0, ", "li $t0, ", aop);
                self.push_mem_instr("sw $t0, ", left_side);
                proof {
                    assert(self@.code =~= g2.code + seq![
                        spec_load("lw $t0, "@, "li $t0, "@, aop@),
                        spec_mem_instr("sw $t0, "@, left_side as int),
                    ]);
                }
                Ok(())
            },
            _ => Err(GeneratorError::UnsupportedStatement),
        }
    }

    /// The statement list, in order; see `spec_gen_stmts`.
    fn gen_stmts(&mut self, statements: Vec<Box<ExprAST>>) -> (r: Result<(), GeneratorError>)
        requires
            old(self).wf(),
        ensures
            final(self).wf(),
            match (r, spec_gen_stmts(old(self)@, stmts_view(statements@))) {
                (Ok(u), Ok(g)) => final(self)@ == g,
                (Err(e1), Err(e2)) => e1 == e2,
                _ => false,
            },
        decreases statements@.len(),
    {
        let ghost s_all = statements@;
        let mut rest = statements;
        if rest.len() == 0 {
            return Ok(());
        }
        let e = rest.remove(0);
        proof {
            assert(rest@ =~= s_all.drop_first());
            assert(stmts_view(rest@) =~= stmts_view(s_all).drop_first());
        }
        match self.generate_functions(e) {
            Ok(u) => {},
            Err(err) => {
                return Err(err);
            },
        }
        self.gen_stmts(rest)
    }

    /// Compiles the statement list: emits each statement's code, then
    /// wraps the body in the prologue and epilogue sized to the final
    /// frame, followed by the runtime prelude; see `spec_generate`.
    /// Succeeds exactly when every statement is a syscall or an
    /// assignment over pure operands and the frame stays within its
    /// 32-bit range.
    pub fn generate(&mut self, statements: Vec<Box<ExprAST>>) -> (r: Result<String, GeneratorError>)
        requires
            old(self).wf(),
        ensures
            final(self).wf(),
            match (r, spec_generate(old(self)@, stmts_view(statements@))) {
                (Ok(s), Ok((out, g))) => s@ == out && final(self)@ == g,
                (Err(e1), Err(e2)) => e1 == e2,
                _ => false,
            },
    {
        match self.gen_stmts(statements) {
            Ok(u) => {},
            Err(err) => {
                return Err(err);
            },
        }
        let ghost mid = *self;
        let mut buf = String::new();
        let p = main_prologue(self.frame_pointer);
        buf.append(p.as_str());
        let ghost lines = self@.code;
        let mut i: usize = 0;
        while i < self.code.len()
            invariant
                *self == mid,
                i <= self.code@.len(),
                lines == code_view(self.code@),
                buf@ == spec_main_prologue(self@.frame_pointer) + spec_body_text(
                    lines.take(i as int),
                ),
            decreases self.code@.len() - i,
        {
            buf.append("    ");
            buf.append(self.code[i].as_str());
            buf.append("\n");
            proof {
                assert(lines.take(i + 1).drop_last() =~= lines.take(i as int));
                assert(lines.take(i + 1).last() == lines[i as int]);
            }
            i = i + 1;
        }
        proof {
            assert(lines.take(self.code@.len() as int) =~= lines);
        }
        let ep = main_epilogue(self.frame_pointer);
        buf.append(ep.as_str());
        buf.append(prelude());
        proof {
            assert(buf@ =~= spec_output(self@));
        }
        Ok(buf)
    }
}

/// Evaluating an expression never disturbs an existing binding: the symbol
/// table is append-only within one compilation.
pub proof fn lemma_codegen_preserves_binding(g: GenState, e: ExprV, name: Seq<char>)
    requires
        spec_lookup(g.symbols, name) is Some,
    ensures
        match spec_codegen(g, e) {
            Ok((op, g2)) => spec_lookup(g2.symbols, name) == spec_lookup(g.symbols, name),
            Err(_) => true,
        },
    decreases e,
{
    match e {
        ExprV::Variable { name: n2 } => {
            if spec_lookup(g.symbols, n2) is None && g.frame_pointer + 4 <= u32::MAX {
                lemma_lookup_push(g.symbols, name, (n2, g.frame_pointer));
            }
        },
        ExprV::Binary { op, lhs, rhs } => {
            lemma_codegen_preserves_binding(g, *lhs, name);
            match spec_codegen(g, *lhs) {
                Ok((l_op, g1)) => {
                    lemma_codegen_preserves_binding(g1, *rhs, name);
                },
                Err(_) => {},
            }
        },
        _ => {},
    }
}

/// Emitting statements never disturbs an existing binding either.
pub proof fn lemma_gen_stmts_preserve_binding(g: GenState, stmts: Seq<ExprV>, name: Seq<char>)
    requires
        spec_lookup(g.symbols, name) is Some,
    ensures
        match spec_gen_stmts(g, stmts) {
            Ok(g2) => spec_lookup(g2.symbols, name) == spec_lookup(g.symbols, name),
            Err(_) => true,
        },
    decreases stmts.len(), 2int,
{
    if stmts.len() > 0 {
        lemma_gen_stmt_preserves_binding(g, stmts[0], name);
        match spec_gen_stmt(g, stmts[0]) {
            Ok(g1) => {
                lemma_gen_stmts_preserve_binding(g1, stmts.drop_first(), name);
            },
            Err(_) => {},
        }
    }
}

/// See `lemma_gen_stmts_preserve_binding`, for one statement.
pub proof fn lemma_gen_stmt_preserves_binding(g: GenState, e: ExprV, name: Seq<char>)
    requires
        spec_lookup(g.symbols, name) is Some,
    ensures
        match spec_gen_stmt(g, e) {
            Ok(g2) => spec_lookup(g2.symbols, name) == spec_lookup(g.symbols, name),
            Err(_) => true,
        },
    decreases e, 1int,
{
    match e {
        ExprV::Syscall { calle: SyscallKind::Read, args } => {
            lemma_gen_read_args_preserve_binding(g, args, name);
        },
        ExprV::Syscall { calle: SyscallKind::Write, args } => {
            lemma_gen_write_args_preserve_binding(g, args, name);
        },
        ExprV::Assignment { var, assign } => {
            lemma_codegen_preserves_binding(g, *var, name);
            match spec_codegen(g, *var) {
                Ok((vop, g1)) => {
                    lemma_codegen_preserves_binding(g1, *assign, name);
                },
                Err(_) => {},
            }
        },
        _ => {},
    }
}

/// See `lemma_gen_stmts_preserve_binding`, for a `read` argument list.
pub proof fn lemma_gen_read_args_preserve_binding(g: GenState, args: Seq<ExprV>, name: Seq<char>)
    requires
        spec_lookup(g.symbols, name) is Some,
    ensures
        match spec_gen_read_args(g, args) {
            Ok(g2) => spec_lookup(g2.symbols, name) == spec_lookup(g.symbols, name),
            Err(_) => true,
        },
    decreases args.len(), 0int,
{
    if args.len() > 0 {
        lemma_codegen_preserves_binding(g, args[0], name);
        match spec_codegen(g, args[0]) {
            Ok((op, g1)) => {
                let g2 = match op {
                    OperandV::Mem { offset } => GenState {
                        code: g1.code + seq![
                            "jal read"@,
                            spec_mem_instr("sw $v0, "@, offset),
                        ],
                        ..g1
                    },
                    OperandV::Imm { value } => g1,
                };
                lemma_gen_read_args_preserve_binding(g2, args.drop_first(), name);
            },
            Err(_) => {},
        }
    }
}

/// See `lemma_gen_stmts_preserve_binding`, for a `write` argument list.
pub proof fn lemma_gen_write_args_preserve_binding(g: GenState, args: Seq<ExprV>, name: Seq<char>)
    requires
        spec_lookup(g.symbols, name) is Some,
    ensures
        match spec_gen_write_args(g, args) {
            Ok(g2) => spec_lookup(g2.symbols, name) == spec_lookup(g.symbols, name),
            Err(_) => true,
        },
    decreases args.len(), 0int,
{
    if args.len() > 0 {
        lemma_codegen_preserves_binding(g, args[0], name);
        match spec_codegen(g, args[0]) {
            Ok((op, g1)) => {
                let g2 = GenState {
                    code: g1.code + seq![
                        spec_load("lw $a0, "@, "li $a0, "@, op),
                        "jal write"@,
                    ],
                    ..g1
                };
                lemma_gen_write_args_preserve_binding(g2, args.drop_first(), name);
            },
            Err(_) => {},
        }
    }
}

/// Symbol-table stability: within one compilation, every occurrence of the
/// same variable resolves to the same frame offset. After a reference to
/// `name` yields an offset, any statements that follow leave the binding
/// intact, and a further reference yields that offset again without
/// touching the generator state.
pub proof fn lemma_symbol_table_stability(g: GenState, name: Seq<char>, stmts: Seq<ExprV>)
    ensures
        match spec_codegen(g, ExprV::Variable { name }) {
            Ok((op1, g1)) => match spec_gen_stmts(g1, stmts) {
                Ok(g2) => spec_codegen(g2, ExprV::Variable { name }) == Ok::<
                    (OperandV, GenState),
                    GeneratorError,
                >((op1, g2)),
                Err(_) => true,
            },
            Err(_) => true,
        },
{
    match spec_codegen(g, ExprV::Variable { name }) {
        Ok((op1, g1)) => {
            if spec_lookup(g.symbols, name) is None {
                lemma_lookup_push(g.symbols, name, (name, g.frame_pointer));
            }
            assert(spec_lookup(g1.symbols, name) == Some(op1->Mem_offset));
            lemma_gen_stmts_preserve_binding(g1, stmts, name);
        },
        Err(_) => {},
    }
}

/// An expression a syscall or assignment may evaluate: literals, variables
/// and binary operations, with no nested syscall or assignment.
pub open spec fn pure_expr(e: ExprV) -> bool
    decreases e,
{
    match e {
        ExprV::IntLiteral { value } => true,
        ExprV::Variable { name } => true,
        ExprV::Binary { op, lhs, rhs } => pure_expr(*lhs) && pure_expr(*rhs),
        _ => false,
    }
}

/// A statement the generator recognizes: a syscall or an assignment, over
/// pure operands.
pub open spec fn stmt_ok(e: ExprV) -> bool {
    match e {
        ExprV::Syscall { calle, args } => forall|i: int|
            0 <= i < args.len() ==> pure_expr(#[trigger] args[i]),
        ExprV::Assignment { var, assign } => pure_expr(*var) && pure_expr(*assign),
        _ => false,
    }
}

/// How many frame slots evaluating an expression can allocate at most: one
/// per variable and one per binary node.
pub open spec fn expr_slots(e: ExprV) -> int
    decreases e,
{
    match e {
        ExprV::IntLiteral { value } => 0,
        ExprV::Variable { name } => 1,
        ExprV::Binary { op, lhs, rhs } => expr_slots(*lhs) + expr_slots(*rhs) + 1,
        _ => 0,
    }
}

/// The slot bound of an argument list.
pub open spec fn args_slots(args: Seq<ExprV>) -> int
    decreases args.len(),
{
    if args.len() == 0 {
        0
    } else {
        expr_slots(args[0]) + args_slots(args.drop_first())
    }
}

/// The slot bound of one statement.
pub open spec fn stmt_slots(e: ExprV) -> int {
    match e {
        ExprV::Syscall { calle, args } => args_slots(args),
        ExprV::Assignment { var, assign } => expr_slots(*var) + expr_slots(*assign),
        _ => 0,
    }
}

/// The slot bound of a statement list.
pub open spec fn stmts_slots(stmts: Seq<ExprV>) -> int
    decreases stmts.len(),
{
    if stmts.len() == 0 {
        0
    } else {
        stmt_slots(stmts[0]) + stmts_slots(stmts.drop_first())
    }
}

/// A slot bound is never negative.
pub proof fn lemma_expr_slots_nonneg(e: ExprV)
    ensures
        expr_slots(e) >= 0,
    decreases e,
{
    match e {
        ExprV::Binary { op, lhs, rhs } => {
            lemma_expr_slots_nonneg(*lhs);
            lemma_expr_slots_nonneg(*rhs);
        },
        _ => {},
    }
}

/// See `lemma_expr_slots_nonneg`.
pub proof fn lemma_args_slots_nonneg(args: Seq<ExprV>)
    ensures
        args_slots(args) >= 0,
    decreases args.len(),
{
    if args.len() > 0 {
        lemma_expr_slots_nonneg(args[0]);
        lemma_args_slots_nonneg(args.drop_first());
    }
}

/// See `lemma_expr_slots_nonneg`.
pub proof fn lemma_stmt_slots_nonneg(e: ExprV)
    ensures
        stmt_slots(e) >= 0,
{
    match e {
        ExprV::Syscall { calle, args } => {
            lemma_args_slots_nonneg(args);
        },
        ExprV::Assignment { var, assign } => {
            lemma_expr_slots_nonneg(*var);
            lemma_expr_slots_nonneg(*assign);
        },
        _ => {},
    }
}

/// See `lemma_expr_slots_nonneg`.
pub proof fn lemma_stmts_slots_nonneg(stmts: Seq<ExprV>)
    ensures
        stmts_slots(stmts) >= 0,
    decreases stmts.len(),
{
    if stmts.len() > 0 {
        lemma_stmt_slots_nonneg(stmts[0]);
        lemma_stmts_slots_nonneg(stmts.drop_first());
    }
}

/// Allocating a fresh binding keeps the generator invariant.
proof fn lemma_alloc_preserves_wf(g: GenState, name: Seq<char>)
    requires
        gen_wf(g),
        spec_lookup(g.symbols, name) is None,
        g.frame_pointer + 4 <= u32::MAX,
    ensures
        gen_wf(
            GenState {
                frame_pointer: g.frame_pointer + 4,
                symbols: g.symbols.push((name, g.frame_pointer)),
                code: g.code,
            },
        ),
{
    let entry = (name, g.frame_pointer);
    let g1 = GenState {
        frame_pointer: g.frame_pointer + 4,
        symbols: g.symbols.push(entry),
        code: g.code,
    };
    lemma_lookup_none_absent(g.symbols, name);
    assert forall|i: int| 0 <= i < g1.symbols.len() implies 32 <= (#[trigger] g1.symbols[i]).1
        < g1.frame_pointer && g1.symbols[i].1 % 4 == 0 by {
        if i < g.symbols.len() {
            assert(g1.symbols[i] == g.symbols[i]);
        }
    }
    assert forall|i: int, j: int| 0 <= i < j < g1.symbols.len() implies (
    #[trigger] g1.symbols[i]).1 < (#[trigger] g1.symbols[j]).1 && g1.symbols[i].0
        != g1.symbols[j].0 by {
        if j < g.symbols.len() {
            assert(g1.symbols[i] == g.symbols[i]);
            assert(g1.symbols[j] == g.symbols[j]);
        } else {
            assert(g1.symbols[i] == g.symbols[i]);
            assert(g1.symbols[j] == entry);
        }
    }
}

/// Evaluating a pure expression succeeds whenever the frame has room for
/// its slot bound, keeps the generator invariant, and grows the frame by
/// at most that bound.
pub proof fn lemma_codegen_succeeds(g: GenState, e: ExprV)
    requires
        gen_wf(g),
        pure_expr(e),
        g.frame_pointer + 4 * expr_slots(e) <= u32::MAX,
    ensures
        match spec_codegen(g, e) {
            Ok((op, g2)) => gen_wf(g2) && g.frame_pointer <= g2.frame_pointer <= g.frame_pointer
                + 4 * expr_slots(e) && g2.symbols.len() >= g.symbols.len(),
            Err(_) => false,
        },
    decreases e,
{
    match e {
        ExprV::Variable { name } => {
            if spec_lookup(g.symbols, name) is None {
                lemma_alloc_preserves_wf(g, name);
            }
        },
        ExprV::Binary { op, lhs, rhs } => {
            lemma_expr_slots_nonneg(*lhs);
            lemma_expr_slots_nonneg(*rhs);
            lemma_codegen_succeeds(g, *lhs);
            let (l_op, g1) = spec_codegen(g, *lhs)->Ok_0;
            lemma_codegen_succeeds(g1, *rhs);
            let (r_op, g2) = spec_codegen(g1, *rhs)->Ok_0;
            assert(g2.frame_pointer % 4 == 0);
        },
        _ => {},
    }
}

/// Emitting one well-shaped statement succeeds whenever the frame has
/// room for its slot bound.
pub proof fn lemma_gen_stmt_succeeds(g: GenState, e: ExprV)
    requires
        gen_wf(g),
        stmt_ok(e),
        g.frame_pointer + 4 * stmt_slots(e) <= u32::MAX,
    ensures
        match spec_gen_stmt(g, e) {
            Ok(g2) => gen_wf(g2) && g.frame_pointer <= g2.frame_pointer <= g.frame_pointer + 4
                * stmt_slots(e),
            Err(_) => false,
        },
{
    match e {
        ExprV::Syscall { calle: SyscallKind::Read, args } => {
            lemma_gen_read_args_succeed(g, args);
        },
        ExprV::Syscall { calle: SyscallKind::Write, args } => {
            lemma_gen_write_args_succeed(g, args);
        },
        ExprV::Assignment { var, assign } => {
            lemma_expr_slots_nonneg(*var);
            lemma_expr_slots_nonneg(*assign);
            lemma_codegen_succeeds(g, *var);
            let (vop, g1) = spec_codegen(g, *var)->Ok_0;
            lemma_codegen_succeeds(g1, *assign);
        },
        _ => {},
    }
}

/// See `lemma_gen_stmt_succeeds`, for a `read` argument list.
pub proof fn lemma_gen_read_args_succeed(g: GenState, args: Seq<ExprV>)
    requires
        gen_wf(g),
        forall|i: int| 0 <= i < args.len() ==> pure_expr(#[trigger] args[i]),
        g.frame_pointer + 4 * args_slots(args) <= u32::MAX,
    ensures
        match spec_gen_read_args(g, args) {
            Ok(g2) => gen_wf(g2) && g.frame_pointer <= g2.frame_pointer <= g.frame_pointer + 4
                * args_slots(args),
            Err(_) => false,
        },
    decreases args.len(),
{
    if args.len() > 0 {
        lemma_expr_slots_nonneg(args[0]);
        lemma_args_slots_nonneg(args.drop_first());
        lemma_codegen_succeeds(g, args[0]);
        let (op, g1) = spec_codegen(g, args[0])->Ok_0;
        let g2 = match op {
            OperandV::Mem { offset } => GenState {
                code: g1.code + seq!["jal read"@, spec_mem_instr("sw $v0, "@, offset)],
                ..g1
            },
            OperandV::Imm { value } => g1,
        };
        lemma_gen_read_args_succeed(g2, args.drop_first());
    }
}

/// See `lemma_gen_stmt_succeeds`, for a `write` argument list.
pub proof fn lemma_gen_write_args_succeed(g: GenState, args: Seq<ExprV>)
    requires
        gen_wf(g),
        forall|i: int| 0 <= i < args.len() ==> pure_expr(#[trigger] args[i]),
        g.frame_pointer + 4 * args_slots(args) <= u32::MAX,
    ensures
        match spec_gen_write_args(g, args) {
            Ok(g2) => gen_wf(g2) && g.frame_pointer <= g2.frame_pointer <= g.frame_pointer + 4
                * args_slots(args),
            Err(_) => false,
        },
    decreases args.len(),
{
    if args.len() > 0 {
        lemma_expr_slots_nonneg(args[0]);
        lemma_args_slots_nonneg(args.drop_first());
        lemma_codegen_succeeds(g, args[0]);
        let (op, g1) = spec_codegen(g, args[0])->Ok_0;
        let g2 = GenState {
            code: g1.code + seq![spec_load("lw $a0, "@, "li $a0, "@, op), "jal write"@],
            ..g1
        };
        lemma_gen_write_args_succeed(g2, args.drop_first());
    }
}

/// Success is owed: compiling a list of well-shaped statements (each a
/// syscall or an assignment over pure operands) succeeds whenever the
/// frame has room for their slot bound; only a malformed statement or
/// frame overflow can make `generate` fail.
pub proof fn lemma_generate_succeeds(g: GenState, stmts: Seq<ExprV>)
    requires
        gen_wf(g),
        forall|i: int| 0 <= i < stmts.len() ==> stmt_ok(#[trigger] stmts[i]),
        g.frame_pointer + 4 * stmts_slots(stmts) <= u32::MAX,
    ensures
        spec_generate(g, stmts) is Ok,
    decreases stmts.len(),
{
    if stmts.len() > 0 {
        lemma_stmt_slots_nonneg(stmts[0]);
        lemma_stmts_slots_nonneg(stmts.drop_first());
        lemma_gen_stmt_succeeds(g, stmts[0]);
        let g1 = spec_gen_stmt(g, stmts[0])->Ok_0;
        lemma_generate_succeeds(g1, stmts.drop_first());
    }
}

/// Allocation of a row of variable references, keeping each offset.
pub open spec fn spec_alloc_vars(g: GenState, names: Seq<Seq<char>>) -> Result<
    (Seq<int>, GenState),
    GeneratorError,
>
    decreases names.len(),
{
    if names.len() == 0 {
        Ok((Seq::empty(), g))
    } else {
        match spec_codegen(g, ExprV::Variable { name: names[0] }) {
            Err(err) => Err(err),
            Ok((op, g1)) => {
                let off = match op {
                    OperandV::Mem { offset } => offset,
                    OperandV::Imm { value } => value,
                };
                match spec_alloc_vars(g1, names.drop_first()) {
                    Err(err) => Err(err),
                    Ok((offs, g2)) => Ok((seq![off] + offs, g2)),
                }
            },
        }
    }
}

/// Fresh variables first referenced in order get the offsets `base`,
/// `base+4`, `base+8`, ...: strictly increasing, no gaps, no reuse, and
/// the frame grows by exactly four bytes per variable.
pub proof fn lemma_fresh_offsets_consecutive(g: GenState, names: Seq<Seq<char>>)
    requires
        gen_wf(g),
        forall|i: int, j: int|
            0 <= i < j < names.len() ==> (#[trigger] names[i]) != (#[trigger] names[j]),
        forall|i: int|
            0 <= i < names.len() ==> spec_lookup(g.symbols, #[trigger] names[i]) is None,
        g.frame_pointer + 4 * names.len() <= u32::MAX,
    ensures
        match spec_alloc_vars(g, names) {
            Ok((offs, g2)) => {
                &&& offs.len() == names.len()
                &&& forall|i: int|
                    0 <= i < names.len() ==> #[trigger] offs[i] == g.frame_pointer + 4 * i
                &&& g2.frame_pointer == g.frame_pointer + 4 * names.len()
            },
            Err(_) => false,
        },
    decreases names.len(),
{
    if names.len() > 0 {
        let name = names[0];
        let entry = (name, g.frame_pointer);
        let g1 = GenState {
            frame_pointer: g.frame_pointer + 4,
            symbols: g.symbols.push(entry),
            code: g.code,
        };
        lemma_lookup_none_absent(g.symbols, name);
        assert(gen_wf(g1)) by {
            assert forall|i: int| 0 <= i < g1.symbols.len() implies 32 <= (
            #[trigger] g1.symbols[i]).1 < g1.frame_pointer && g1.symbols[i].1 % 4 == 0 by {
                if i < g.symbols.len() {
                    assert(g1.symbols[i] == g.symbols[i]);
                }
            }
            assert forall|i: int, j: int| 0 <= i < j < g1.symbols.len() implies (
            #[trigger] g1.symbols[i]).1 < (#[trigger] g1.symbols[j]).1 && g1.symbols[i].0
                != g1.symbols[j].0 by {
                if j < g.symbols.len() {
                    assert(g1.symbols[i] == g.symbols[i]);
                    assert(g1.symbols[j] == g.symbols[j]);
                } else {
                    assert(g1.symbols[i] == g.symbols[i]);
                    assert(g1.symbols[j] == entry);
                }
            }
        }
        assert forall|i: int|
            0 <= i < names.drop_first().len() implies spec_lookup(
            g1.symbols,
            #[trigger] names.drop_first()[i],
        ) is None by {
            assert(names.drop_first()[i] == names[i + 1]);
            assert(names[i + 1] != names[0]);
            assert(spec_lookup(g.symbols, names[i + 1]) is None);
            lemma_lookup_push(g.symbols, names[i + 1], entry);
        }
        lemma_fresh_offsets_consecutive(g1, names.drop_first());
        match spec_alloc_vars(g1, names.drop_first()) {
            Ok((offs, g2)) => {
                assert forall|i: int|
                    0 <= i < names.len() implies #[trigger] (seq![g.frame_pointer as int]
                    + offs)[i] == g.frame_pointer + 4 * i by {
                    if i > 0 {
                        assert(offs[i - 1] == g1.frame_pointer + 4 * (i - 1));
                    }
                }
            },
            Err(_) => {
                assert(false);
            },
        }
    }
}

} // verus!
