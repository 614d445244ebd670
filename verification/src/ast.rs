//! Syntax analysis: builds statement syntax trees from the token stream by
//! recursive descent with one token of lookahead.
//!
//! The grammar is a `begin ... end` region of statements separated by
//! semicolons; a statement is an assignment (`Identifier := expression`) or
//! a bare expression (a syscall in well-formed programs); an expression is
//! a left-folded chain of `+`/`-` over primaries; a primary is a variable,
//! a `read`/`write` call, an integer literal, or a parenthesized
//! expression. Tokens outside the region are skipped.

use vstd::prelude::*;

use crate::lexer::{Token, TokenType, TokV, TokenV, view_tokens};

verus! {

/// The two binary operators, one left-associative precedence tier.
#[derive(Debug, Clone, Copy, PartialEq, Eq, Structural)]
pub enum BinaryOpKind {
    Add,
    Sub,
}

/// The two built-in syscalls.
#[derive(Debug, Clone, Copy, PartialEq, Eq, Structural)]
pub enum SyscallKind {
    Read,
    Write,
}

/// An expression node. Each composite node exclusively owns its children;
/// the tree is acyclic and never mutated after construction.
#[derive(Debug)]
pub struct ExprAST {
    pub kind: ExprKind,
}

/// The variants of an expression node.
#[derive(Debug)]
pub enum ExprKind {
    IntLiteralExprAST { value: i32 },
    VariableExprAST { name: String },
    BinaryExprAST { op: BinaryOpKind, lhs: Box<ExprAST>, rhs: Box<ExprAST> },
    SyscallExprAST { calle: SyscallKind, args: Vec<ExprAST> },
    AssignmentAST { var: Box<ExprAST>, assign: Box<ExprAST> },
}

/// The mathematical shape of an expression tree.
pub enum ExprV {
    IntLiteral { value: int },
    Variable { name: Seq<char> },
    Binary { op: BinaryOpKind, lhs: Box<ExprV>, rhs: Box<ExprV> },
    Syscall { calle: SyscallKind, args: Seq<ExprV> },
    Assignment { var: Box<ExprV>, assign: Box<ExprV> },
}

/// The shape of an expression node.
pub open spec fn expr_view(e: ExprAST) -> ExprV
    decreases e,
{
    match e.kind {
        ExprKind::IntLiteralExprAST { value } => ExprV::IntLiteral { value: value as int },
        ExprKind::VariableExprAST { name } => ExprV::Variable { name: name@ },
        ExprKind::BinaryExprAST { op, lhs, rhs } => ExprV::Binary {
            op,
            lhs: Box::new(expr_view(*lhs)),
            rhs: Box::new(expr_view(*rhs)),
        },
        ExprKind::SyscallExprAST { calle, args } => ExprV::Syscall {
            calle,
            args: exprs_view_rec(args@),
        },
        ExprKind::AssignmentAST { var, assign } => ExprV::Assignment {
            var: Box::new(expr_view(*var)),
            assign: Box::new(expr_view(*assign)),
        },
    }
}

impl View for ExprAST {
    type V = ExprV;

    open spec fn view(&self) -> ExprV {
        expr_view(*self)
    }
}

/// The shapes of a sequence of expression nodes.
pub open spec fn exprs_view_rec(es: Seq<ExprAST>) -> Seq<ExprV>
    decreases es,
{
    if es.len() == 0 {
        Seq::empty()
    } else {
        seq![expr_view(es[0])] + exprs_view_rec(es.drop_first())
    }
}

/// The shape sequence has the node shapes pointwise.
pub proof fn lemma_exprs_view_rec(es: Seq<ExprAST>)
    ensures
        exprs_view_rec(es).len() == es.len(),
        forall|i: int| 0 <= i < es.len() ==> exprs_view_rec(es)[i] == expr_view(es[i]),
    decreases es.len(),
{
    if es.len() > 0 {
        lemma_exprs_view_rec(es.drop_first());
    }
}

/// The shapes of a sequence of owned statement nodes.
pub open spec fn stmts_view(es: Seq<Box<ExprAST>>) -> Seq<ExprV> {
    Seq::new(es.len(), |i: int| expr_view(*es[i]))
}

/// A syntactic failure: the unexpected token's tag and position.
#[derive(Debug)]
pub struct ParseError {
    pub found: TokenType,
    pub line: usize,
    pub column: usize,
    pub offset: usize,
}

/// The mathematical shape of a syntactic failure.
pub struct ParseErrorV {
    pub found: TokV,
    pub line: int,
    pub column: int,
    pub offset: int,
}

impl View for ParseError {
    type V = ParseErrorV;

    open spec fn view(&self) -> ParseErrorV {
        ParseErrorV {
            found: self.found@,
            line: self.line as int,
            column: self.column as int,
            offset: self.offset as int,
        }
    }
}

/// The failure blamed on token `t`.
pub open spec fn spec_parse_error_at(t: TokenV) -> ParseErrorV {
    ParseErrorV { found: t.token_type, line: t.line, column: t.column, offset: t.offset }
}

/// The parser's cursor: the current lookahead token and the tokens that
/// follow it.
pub struct PState {
    pub cur: TokenV,
    pub rest: Seq<TokenV>,
}

/// The end-of-stream marker token (what `Token::eof` denotes).
pub open spec fn spec_eof_token() -> TokenV {
    TokenV { token_type: TokV::ScanEof, length: 0, line: 0, column: 0, offset: 0 }
}

/// The blank token the parser starts from (what `Token::unknown` denotes).
pub open spec fn spec_unknown_token() -> TokenV {
    TokenV { token_type: TokV::Unknown, length: 0, line: 0, column: 0, offset: 0 }
}

/// Advancing the cursor: the next token becomes current; past the end, the
/// end-of-stream marker stands in.
pub open spec fn spec_advance(st: PState) -> PState {
    if st.rest.len() > 0 {
        PState { cur: st.rest[0], rest: st.rest.drop_first() }
    } else {
        PState { cur: spec_eof_token(), rest: st.rest }
    }
}

/// `<primary> -> Identifier | read (...) | write (...)`
///
/// A bare identifier is a variable reference. `read`/`write` must be
/// followed by a parenthesized, comma-separated argument list.
pub open spec fn spec_parse_identifier(st: PState) -> Result<(ExprV, PState), ParseErrorV>
    decreases st.rest.len(), 0int, 1int,
{
    match st.cur.token_type {
        TokV::Identifier { name } => Ok((ExprV::Variable { name }, spec_advance(st))),
        TokV::Read | TokV::Write => {
            let calle = if st.cur.token_type is Read {
                SyscallKind::Read
            } else {
                SyscallKind::Write
            };
            let st1 = spec_advance(st);
            if !(st1.cur.token_type is LeftParen) {
                Err(spec_parse_error_at(st1.cur))
            } else {
                let st2 = spec_advance(st1);
                if st2.cur.token_type is RightParen {
                    Ok(
                        (
                            ExprV::Syscall { calle, args: Seq::empty() },
                            spec_advance(st2),
                        ),
                    )
                } else {
                    match spec_parse_args(st2) {
                        Err(e) => Err(e),
                        Ok((args, st3)) => Ok(
                            (ExprV::Syscall { calle, args }, spec_advance(st3)),
                        ),
                    }
                }
            }
        },
        _ => Err(spec_parse_error_at(st.cur)),
    }
}

/// One or more comma-separated argument expressions, ending at the `)`
/// (which is left current).
pub open spec fn spec_parse_args(st: PState) -> Result<(Seq<ExprV>, PState), ParseErrorV>
    decreases st.rest.len(), 3int, 0int,
{
    match spec_parse_expression(st) {
        Err(e) => Err(e),
        Ok((e, st1)) => {
            if st1.cur.token_type is RightParen {
                Ok((seq![e], st1))
            } else if st1.cur.token_type is Comma {
                let st2 = spec_advance(st1);
                if st2.rest.len() < st.rest.len() {
                    match spec_parse_args(st2) {
                        Err(e2) => Err(e2),
                        Ok((more, st3)) => Ok((seq![e] + more, st3)),
                    }
                } else {
                    Err(spec_parse_error_at(st2.cur))
                }
            } else {
                Err(spec_parse_error_at(st1.cur))
            }
        },
    }
}

/// `<primary> -> IntLiteral`
pub open spec fn spec_parse_int_literal(st: PState) -> Result<(ExprV, PState), ParseErrorV>
    decreases st.rest.len(), 0int, 0int,
{
    match st.cur.token_type {
        TokV::IntLiteral { value } => Ok((ExprV::IntLiteral { value }, spec_advance(st))),
        _ => Err(spec_parse_error_at(st.cur)),
    }
}

/// `<primary> -> ( <expression> )`
pub open spec fn spec_parse_paren(st: PState) -> Result<(ExprV, PState), ParseErrorV>
    decreases st.rest.len(), 0int, 2int,
{
    let st1 = spec_advance(st);
    if st1.rest.len() < st.rest.len() {
        match spec_parse_expression(st1) {
            Err(e) => Err(e),
            Ok((e, st2)) => {
                if st2.cur.token_type is RightParen {
                    Ok((e, spec_advance(st2)))
                } else {
                    Err(spec_parse_error_at(st2.cur))
                }
            },
        }
    } else {
        Err(spec_parse_error_at(st1.cur))
    }
}

/// `<primary> -> Identifier | IntLiteral | ( <expression> )`
pub open spec fn spec_parse_primary(st: PState) -> Result<(ExprV, PState), ParseErrorV>
    decreases st.rest.len(), 1int, 0int,
{
    match st.cur.token_type {
        TokV::Read => spec_parse_identifier(st),
        TokV::Write => spec_parse_identifier(st),
        TokV::Identifier { name } => spec_parse_identifier(st),
        TokV::IntLiteral { value } => spec_parse_int_literal(st),
        TokV::LeftParen => spec_parse_paren(st),
        _ => Err(spec_parse_error_at(st.cur)),
    }
}

/// `<expression> -> <primary> <binary op rhs>`
pub open spec fn spec_parse_expression(st: PState) -> Result<(ExprV, PState), ParseErrorV>
    decreases st.rest.len(), 2int, 0int,
{
    match spec_parse_primary(st) {
        Err(e) => Err(e),
        Ok((lhs, st1)) => spec_parse_bin_op_rhs_from(st1, lhs, st.rest.len()),
    }
}

/// `<binary op rhs> -> { (+ | -) <primary> }`, folded onto `lhs` from the
/// left. The extra bound only serves termination measurement.
pub open spec fn spec_parse_bin_op_rhs_from(st: PState, lhs: ExprV, bound: nat) -> Result<
    (ExprV, PState),
    ParseErrorV,
>
    decreases bound, 1int, 1int,
{
    if st.rest.len() <= bound {
        spec_parse_bin_op_rhs(st, lhs)
    } else {
        Err(spec_parse_error_at(st.cur))
    }
}

/// `<binary op rhs> -> { (+ | -) <primary> }`, folded onto `lhs` from the
/// left: strict left associativity, one precedence tier.
pub open spec fn spec_parse_bin_op_rhs(st: PState, lhs: ExprV) -> Result<
    (ExprV, PState),
    ParseErrorV,
>
    decreases st.rest.len(), 1int, 0int,
{
    match st.cur.token_type {
        TokV::OpPlus | TokV::OpMinus => {
            let op = if st.cur.token_type is OpPlus {
                BinaryOpKind::Add
            } else {
                BinaryOpKind::Sub
            };
            let st1 = spec_advance(st);
            if st1.rest.len() < st.rest.len() {
                match spec_parse_primary(st1) {
                    Err(e) => Err(e),
                    Ok((rhs, st2)) => spec_parse_bin_op_rhs_from(
                        st2,
                        ExprV::Binary { op, lhs: Box::new(lhs), rhs: Box::new(rhs) },
                        st1.rest.len(),
                    ),
                }
            } else {
                // The stream was exhausted: the advance yielded the
                // end-of-stream marker, on which a primary cannot start.
                Err(spec_parse_error_at(spec_advance(st).cur))
            }
        },
        _ => Ok((lhs, st)),
    }
}

/// `<assignment> -> Identifier := <expression>`
pub open spec fn spec_parse_assign(st: PState) -> Result<(ExprV, PState), ParseErrorV>
    decreases st.rest.len(), 4int, 0int,
{
    match st.cur.token_type {
        TokV::Identifier { name } => {
            let st1 = spec_advance(st);
            if !(st1.cur.token_type is OpAssign) {
                Err(spec_parse_error_at(st1.cur))
            } else {
                let st2 = spec_advance(st1);
                match spec_parse_expression(st2) {
                    Err(e) => Err(e),
                    Ok((rhs, st3)) => Ok(
                        (
                            ExprV::Assignment {
                                var: Box::new(ExprV::Variable { name }),
                                assign: Box::new(rhs),
                            },
                            st3,
                        ),
                    ),
                }
            }
        },
        _ => Err(spec_parse_error_at(st.cur)),
    }
}

/// The top-level statement list: tokens outside the `begin`/`end` region
/// and the separators inside it are skipped; a statement inside it starts
/// from an identifier (an assignment) or anything else (a bare
/// expression). The loop advances first, so the token right after a
/// statement is consumed as its separator.
pub open spec fn spec_parse(st: PState, program_start: bool) -> Result<Seq<ExprV>, ParseErrorV>
    decreases st.rest.len(), 5int, 0int,
{
    let st1 = spec_advance(st);
    match st1.cur.token_type {
        TokV::ScanEof => Ok(Seq::empty()),
        TokV::Begin => spec_parse(st1, true),
        TokV::End => spec_parse(st1, false),
        TokV::Semicolon => spec_parse(st1, program_start),
        TokV::LineComment => spec_parse(st1, program_start),
        _ => {
            if !program_start {
                spec_parse(st1, program_start)
            } else {
                let r = if st1.cur.token_type is Identifier {
                    spec_parse_assign(st1)
                } else {
                    spec_parse_expression(st1)
                };
                match r {
                    Err(e) => Err(e),
                    Ok((e, st2)) => {
                        if st2.rest.len() < st.rest.len() {
                            match spec_parse(st2, program_start) {
                                Err(e2) => Err(e2),
                                Ok(more) => Ok(seq![e] + more),
                            }
                        } else {
                            Err(spec_parse_error_at(st2.cur))
                        }
                    },
                }
            }
        },
    }
}

/// Parsing a primary (or anything built from one) consumes tokens: on
/// success the rest shrank, or the stream was already exhausted and the
/// end-of-stream marker is current.
pub proof fn lemma_parse_identifier_progress(st: PState)
    ensures
        match spec_parse_identifier(st) {
            Ok((e, st9)) => st9.rest.len() <= st.rest.len() && (st9.rest.len() < st.rest.len()
                || st9.cur.token_type is ScanEof),
            Err(_) => true,
        },
    decreases st.rest.len(), 0int, 1int,
{
    match st.cur.token_type {
        TokV::Read | TokV::Write => {
            let st1 = spec_advance(st);
            if st1.cur.token_type is LeftParen {
                let st2 = spec_advance(st1);
                if !(st2.cur.token_type is RightParen) {
                    lemma_parse_args_progress(st2);
                }
            }
        },
        _ => {},
    }
}

/// See `lemma_parse_identifier_progress`; the same, for an argument list.
pub proof fn lemma_parse_args_progress(st: PState)
    ensures
        match spec_parse_args(st) {
            Ok((args, st9)) => st9.rest.len() <= st.rest.len() && (st9.rest.len() < st.rest.len()
                || st9.cur.token_type is ScanEof),
            Err(_) => true,
        },
    decreases st.rest.len(), 3int, 0int,
{
    lemma_parse_expression_progress(st);
    match spec_parse_expression(st) {
        Ok((e, st1)) => {
            if st1.cur.token_type is Comma {
                let st2 = spec_advance(st1);
                if st2.rest.len() < st.rest.len() {
                    lemma_parse_args_progress(st2);
                }
            }
        },
        Err(_) => {},
    }
}

/// See `lemma_parse_identifier_progress`; the same, for a parenthesized
/// expression.
pub proof fn lemma_parse_paren_progress(st: PState)
    ensures
        match spec_parse_paren(st) {
            Ok((e, st9)) => st9.rest.len() <= st.rest.len() && (st9.rest.len() < st.rest.len()
                || st9.cur.token_type is ScanEof),
            Err(_) => true,
        },
    decreases st.rest.len(), 0int, 2int,
{
    let st1 = spec_advance(st);
    if st1.rest.len() < st.rest.len() {
        lemma_parse_expression_progress(st1);
    }
}

/// See `lemma_parse_identifier_progress`; the same, for any primary.
pub proof fn lemma_parse_primary_progress(st: PState)
    ensures
        match spec_parse_primary(st) {
            Ok((e, st9)) => st9.rest.len() <= st.rest.len() && (st9.rest.len() < st.rest.len()
                || st9.cur.token_type is ScanEof),
            Err(_) => true,
        },
    decreases st.rest.len(), 1int, 0int,
{
    match st.cur.token_type {
        TokV::Read => lemma_parse_identifier_progress(st),
        TokV::Write => lemma_parse_identifier_progress(st),
        TokV::Identifier { name } => lemma_parse_identifier_progress(st),
        TokV::LeftParen => lemma_parse_paren_progress(st),
        _ => {},
    }
}

/// Folding operators onto a parsed primary never adds tokens back: the
/// result state is the entry state (no operator followed) or lies strictly
/// further on.
pub proof fn lemma_parse_bin_op_rhs_progress(st: PState, lhs: ExprV)
    ensures
        match spec_parse_bin_op_rhs(st, lhs) {
            Ok((e, st9)) => st9.rest.len() <= st.rest.len() && (st9.rest.len() < st.rest.len()
                || st9 == st),
            Err(_) => true,
        },
    decreases st.rest.len(), 1int, 0int,
{
    match st.cur.token_type {
        TokV::OpPlus | TokV::OpMinus => {
            let op = if st.cur.token_type is OpPlus {
                BinaryOpKind::Add
            } else {
                BinaryOpKind::Sub
            };
            let st1 = spec_advance(st);
            if st1.rest.len() < st.rest.len() {
                lemma_parse_primary_progress(st1);
                match spec_parse_primary(st1) {
                    Ok((rhs, st2)) => {
                        lemma_parse_bin_op_rhs_from_progress(
                            st2,
                            ExprV::Binary { op, lhs: Box::new(lhs), rhs: Box::new(rhs) },
                            st1.rest.len(),
                        );
                    },
                    Err(_) => {},
                }
            }
        },
        _ => {},
    }
}

/// See `lemma_parse_bin_op_rhs_progress`.
pub proof fn lemma_parse_bin_op_rhs_from_progress(st: PState, lhs: ExprV, bound: nat)
    ensures
        match spec_parse_bin_op_rhs_from(st, lhs, bound) {
            Ok((e, st9)) => st9.rest.len() <= st.rest.len() && (st9.rest.len() < st.rest.len()
                || st9 == st),
            Err(_) => true,
        },
    decreases bound, 1int, 1int,
{
    if st.rest.len() <= bound {
        lemma_parse_bin_op_rhs_progress(st, lhs);
    }
}

/// See `lemma_parse_identifier_progress`; the same, for a whole
/// expression.
pub proof fn lemma_parse_expression_progress(st: PState)
    ensures
        match spec_parse_expression(st) {
            Ok((e, st9)) => st9.rest.len() <= st.rest.len() && (st9.rest.len() < st.rest.len()
                || st9.cur.token_type is ScanEof),
            Err(_) => true,
        },
    decreases st.rest.len(), 2int, 0int,
{
    lemma_parse_primary_progress(st);
    match spec_parse_primary(st) {
        Ok((lhs, st1)) => {
            lemma_parse_bin_op_rhs_from_progress(st1, lhs, st.rest.len());
        },
        Err(_) => {},
    }
}

/// The parser: the whole token stream, a one-token lookahead, and the
/// count of tokens already handed out.
pub struct ASTBuilder {
    pub tokens: Vec<Token>,
    pub idx: usize,
    pub current: Token,
}

impl ASTBuilder {
    /// The parser's structural invariant: the cursor lies within the
    /// stream.
    pub open spec fn wf(&self) -> bool {
        self.idx <= self.tokens@.len()
    }

    /// The parser's cursor as the spec functions see it.
    pub open spec fn pstate(&self) -> PState {
        PState {
            cur: self.current@,
            rest: view_tokens(self.tokens@).skip(self.idx as int),
        }
    }

    /// A fresh parser over a token stream, with a blank lookahead.
    pub fn new(tokens: Vec<Token>) -> (b: ASTBuilder)
        ensures
            b.wf(),
            b.pstate() == (PState {
                cur: spec_unknown_token(),
                rest: view_tokens(tokens@),
            }),
    {
        let b = ASTBuilder { tokens, idx: 0, current: Token::unknown() };
        proof {
            assert(view_tokens(b.tokens@).skip(0) =~= view_tokens(b.tokens@));
        }
        b
    }

    /// Advances the lookahead to the next token of the stream; past the
    /// end, the end-of-stream marker.
    pub fn next(&mut self)
        requires
            old(self).wf(),
        ensures
            final(self).wf(),
            final(self).tokens == old(self).tokens,
            final(self).idx == if old(self).idx < old(self).tokens@.len() {
                old(self).idx + 1
            } else {
                old(self).idx as int
            },
            final(self).pstate() == spec_advance(old(self).pstate()),
    {
        if self.idx < self.tokens.len() {
            let t = self.tokens[self.idx].clone();
            self.current = t;
            self.idx = self.idx + 1;
            proof {
                let ts = view_tokens(self.tokens@);
                let i = old(self).idx as int;
                assert(ts.skip(i)[0] == ts[i]);
                assert(ts.skip(i).drop_first() =~= ts.skip(i + 1));
            }
        } else {
            self.current = Token::eof();
        }
    }

    /// The failure blamed on the current lookahead token.
    fn error_at(&self) -> (e: ParseError)
        ensures
            e@ == spec_parse_error_at(self.pstate().cur),
    {
        ParseError {
            found: self.current.token_type.clone(),
            line: self.current.line,
            column: self.current.column,
            offset: self.current.offset,
        }
    }

    /// `<primary> -> IntLiteral`
    pub fn parse_int_literal(&mut self) -> (r: Result<Box<ExprAST>, ParseError>)
        requires
            old(self).wf(),
            old(self).pstate().cur.token_type is IntLiteral,
        ensures
            final(self).wf(),
            final(self).tokens == old(self).tokens,
            final(self).idx >= old(self).idx,
            match (r, spec_parse_int_literal(old(self).pstate())) {
                (Ok(e), Ok((ev, st))) => expr_view(*e) == ev && final(self).pstate() == st,
                (Err(pe), Err(ev)) => pe@ == ev,
                _ => false,
            },
    {
        let value = match &self.current.token_type {
            TokenType::IntLiteral { value } => *value,
            _ => vstd::pervasive::unreached(),
        };
        let result = Box::new(ExprAST { kind: ExprKind::IntLiteralExprAST { value } });
        self.next();
        Ok(result)
    }

    /// `<primary> -> ( <expression> )`
    pub fn parse_paren(&mut self) -> (r: Result<Box<ExprAST>, ParseError>)
        requires
            old(self).wf(),
        ensures
            final(self).wf(),
            final(self).tokens == old(self).tokens,
            final(self).idx >= old(self).idx,
            match (r, spec_parse_paren(old(self).pstate())) {
                (Ok(e), Ok((ev, st))) => expr_view(*e) == ev && final(self).pstate() == st,
                (Err(pe), Err(ev)) => pe@ == ev,
                _ => false,
            },
        decreases old(self).tokens@.len() - old(self).idx, 0int, 2int,
    {
        // eat '('
        self.next();
        let ended = match &self.current.token_type {
            TokenType::ScanEof => true,
            _ => false,
        };
        if ended {
            // Nothing can follow: a primary cannot start at the end of the
            // stream, so the expression inside the parentheses fails here.
            return Err(self.error_at());
        }
        let v = match self.parse_expression() {
            Ok(v) => v,
            Err(e) => {
                return Err(e);
            },
        };
        let closed = match &self.current.token_type {
            TokenType::RightParen => true,
            _ => false,
        };
        if !closed {
            return Err(self.error_at());
        }
        // eat ')'
        self.next();
        Ok(v)
    }

    /// `<primary> -> Identifier | read (...) | write (...)`
    pub fn parse_identifier(&mut self) -> (r: Result<Box<ExprAST>, ParseError>)
        requires
            old(self).wf(),
            old(self).pstate().cur.token_type is Identifier || old(
                self,
            ).pstate().cur.token_type is Read || old(self).pstate().cur.token_type is Write,
        ensures
            final(self).wf(),
            final(self).tokens == old(self).tokens,
            final(self).idx >= old(self).idx,
            match (r, spec_parse_identifier(old(self).pstate())) {
                (Ok(e), Ok((ev, st))) => expr_view(*e) == ev && final(self).pstate() == st,
                (Err(pe), Err(ev)) => pe@ == ev,
                _ => false,
            },
        decreases old(self).tokens@.len() - old(self).idx, 0int, 1int,
    {
        let name_opt: Option<String> = match &self.current.token_type {
            TokenType::Identifier { name } => Some(name.clone()),
            _ => None,
        };
        if let Some(name) = name_opt {
            let e = Box::new(ExprAST { kind: ExprKind::VariableExprAST { name } });
            self.next();
            return Ok(e);
        }
        let calle = match &self.current.token_type {
            TokenType::Read => SyscallKind::Read,
            TokenType::Write => SyscallKind::Write,
            _ => vstd::pervasive::unreached(),
        };
        self.next();
        // '('
        let opened = match &self.current.token_type {
            TokenType::LeftParen => true,
            _ => false,
        };
        if !opened {
            return Err(self.error_at());
        }
        self.next();
        let empty_call = match &self.current.token_type {
            TokenType::RightParen => true,
            _ => false,
        };
        if empty_call {
            // eat ')'
            self.next();
            let e = Box::new(
                ExprAST { kind: ExprKind::SyscallExprAST { calle, args: Vec::new() } },
            );
            proof {
                assert(exprs_view_rec(Seq::<ExprAST>::empty()) =~= Seq::<ExprV>::empty());
            }
            return Ok(e);
        }
        let args = match self.parse_args() {
            Ok(a) => a,
            Err(e) => {
                return Err(e);
            },
        };
        // eat ')'
        self.next();
        let e = Box::new(ExprAST { kind: ExprKind::SyscallExprAST { calle, args } });
        Ok(e)
    }

    /// One or more comma-separated argument expressions, ending at the `)`
    /// (which is left current).
    fn parse_args(&mut self) -> (r: Result<Vec<ExprAST>, ParseError>)
        requires
            old(self).wf(),
        ensures
            final(self).wf(),
            final(self).tokens == old(self).tokens,
            final(self).idx >= old(self).idx,
            match (r, spec_parse_args(old(self).pstate())) {
                (Ok(v), Ok((evs, st))) => exprs_view_rec(v@) == evs && final(self).pstate() == st,
                (Err(pe), Err(ev)) => pe@ == ev,
                _ => false,
            },
        decreases old(self).tokens@.len() - old(self).idx, 3int, 0int,
    {
        let ghost st0 = self.pstate();
        let arg = match self.parse_expression() {
            Ok(a) => a,
            Err(e) => {
                return Err(e);
            },
        };
        let ghost st1 = self.pstate();
        let done = match &self.current.token_type {
            TokenType::RightParen => true,
            _ => false,
        };
        if done {
            let mut args = Vec::<ExprAST>::new();
            args.push(*arg);
            proof {
                lemma_exprs_view_rec(args@);
                assert(exprs_view_rec(args@) =~= seq![expr_view(args@[0])]);
            }
            return Ok(args);
        }
        let comma = match &self.current.token_type {
            TokenType::Comma => true,
            _ => false,
        };
        if !comma {
            return Err(self.error_at());
        }
        proof {
            lemma_parse_expression_progress(st0);
        }
        self.next();
        let mut more = match self.parse_args() {
            Ok(m) => m,
            Err(e) => {
                return Err(e);
            },
        };
        let ghost m0 = more@;
        let ghost av = expr_view(*arg);
        more.insert(0, *arg);
        proof {
            let (e_v, _) = spec_parse_expression(st0)->Ok_0;
            assert(av == e_v);
            lemma_exprs_view_rec(more@);
            lemma_exprs_view_rec(m0);
            assert(exprs_view_rec(more@) =~= seq![av] + exprs_view_rec(m0)) by {
                assert(more@[0] == m0.insert(0, more@[0])[0]);
                assert(exprs_view_rec(more@)[0] == expr_view(more@[0]));
                assert forall|i: int| 0 <= i < m0.len() implies exprs_view_rec(more@)[i + 1]
                    == exprs_view_rec(m0)[i] by {
                    assert(more@[i + 1] == m0[i]);
                    assert(exprs_view_rec(more@)[i + 1] == expr_view(more@[i + 1]));
                    assert(exprs_view_rec(m0)[i] == expr_view(m0[i]));
                }
            }
        }
        Ok(more)
    }

    /// `<primary> -> Identifier | IntLiteral | ( <expression> )`
    pub fn parse_primary(&mut self) -> (r: Result<Box<ExprAST>, ParseError>)
        requires
            old(self).wf(),
        ensures
            final(self).wf(),
            final(self).tokens == old(self).tokens,
            final(self).idx >= old(self).idx,
            match (r, spec_parse_primary(old(self).pstate())) {
                (Ok(e), Ok((ev, st))) => expr_view(*e) == ev && final(self).pstate() == st,
                (Err(pe), Err(ev)) => pe@ == ev,
                _ => false,
            },
        decreases old(self).tokens@.len() - old(self).idx, 1int, 0int,
    {
        let sel: u8 = match &self.current.token_type {
            TokenType::Read => 0,
            TokenType::Write => 0,
            TokenType::Identifier { name: _ } => 0,
            TokenType::IntLiteral { value: _ } => 1,
            TokenType::LeftParen => 2,
            _ => 3,
        };
        if sel == 0 {
            self.parse_identifier()
        } else if sel == 1 {
            self.parse_int_literal()
        } else if sel == 2 {
            self.parse_paren()
        } else {
            Err(self.error_at())
        }
    }

    /// `<expression> -> <primary> <binary op rhs>`
    pub fn parse_expression(&mut self) -> (r: Result<Box<ExprAST>, ParseError>)
        requires
            old(self).wf(),
        ensures
            final(self).wf(),
            final(self).tokens == old(self).tokens,
            final(self).idx >= old(self).idx,
            match (r, spec_parse_expression(old(self).pstate())) {
                (Ok(e), Ok((ev, st))) => expr_view(*e) == ev && final(self).pstate() == st,
                (Err(pe), Err(ev)) => pe@ == ev,
                _ => false,
            },
        decreases old(self).tokens@.len() - old(self).idx, 2int, 0int,
    {
        let lhs = match self.parse_primary() {
            Ok(l) => l,
            Err(e) => {
                return Err(e);
            },
        };
        self.parse_bin_op_rhs(lhs)
    }

    /// `<binary op rhs> -> { (+ | -) <primary> }`, folded onto `lhs` from
    /// the left: strict left associativity, one precedence tier.
    pub fn parse_bin_op_rhs(&mut self, lhs: Box<ExprAST>) -> (r: Result<Box<ExprAST>, ParseError>)
        requires
            old(self).wf(),
        ensures
            final(self).wf(),
            final(self).tokens == old(self).tokens,
            final(self).idx >= old(self).idx,
            match (r, spec_parse_bin_op_rhs(old(self).pstate(), expr_view(*lhs))) {
                (Ok(e), Ok((ev, st))) => expr_view(*e) == ev && final(self).pstate() == st,
                (Err(pe), Err(ev)) => pe@ == ev,
                _ => false,
            },
        decreases old(self).tokens@.len() - old(self).idx, 1int, 0int,
    {
        let ghost st0 = self.pstate();
        let ghost l0 = expr_view(*lhs);
        let op_sel: u8 = match &self.current.token_type {
            TokenType::OpPlus => 0,
            TokenType::OpMinus => 1,
            _ => 2,
        };
        if op_sel == 2 {
            return Ok(lhs);
        }
        let bin_op = if op_sel == 0 {
            BinaryOpKind::Add
        } else {
            BinaryOpKind::Sub
        };
        self.next();
        let ended = match &self.current.token_type {
            TokenType::ScanEof => true,
            _ => false,
        };
        if ended {
            // A primary cannot start at the end of the stream.
            proof {
                let st1 = spec_advance(st0);
                assert(st1 == self.pstate());
                assert(spec_parse_primary(st1) == Err::<(ExprV, PState), ParseErrorV>(
                    spec_parse_error_at(st1.cur),
                ));
            }
            return Err(self.error_at());
        }
        let rhs = match self.parse_primary() {
            Ok(p) => p,
            Err(e) => {
                return Err(e);
            },
        };
        let node = Box::new(ExprAST { kind: ExprKind::BinaryExprAST { op: bin_op, lhs, rhs } });
        proof {
            let st1 = spec_advance(st0);
            assert(st1.rest.len() < st0.rest.len());
            let (rhs_v, st2) = spec_parse_primary(st1)->Ok_0;
            assert(st2 == self.pstate());
            assert(st2.rest.len() <= st1.rest.len());
        }
        self.parse_bin_op_rhs(node)
    }

    /// `<assignment> -> Identifier := <expression>`
    pub fn parse_assign(&mut self) -> (r: Result<Box<ExprAST>, ParseError>)
        requires
            old(self).wf(),
            old(self).pstate().cur.token_type is Identifier,
        ensures
            final(self).wf(),
            final(self).tokens == old(self).tokens,
            final(self).idx >= old(self).idx,
            match (r, spec_parse_assign(old(self).pstate())) {
                (Ok(e), Ok((ev, st))) => expr_view(*e) == ev && final(self).pstate() == st,
                (Err(pe), Err(ev)) => pe@ == ev,
                _ => false,
            },
    {
        let name = match &self.current.token_type {
            TokenType::Identifier { name } => name.clone(),
            _ => vstd::pervasive::unreached(),
        };
        let id = Box::new(ExprAST { kind: ExprKind::VariableExprAST { name } });
        self.next();
        let assigned = match &self.current.token_type {
            TokenType::OpAssign => true,
            _ => false,
        };
        if !assigned {
            return Err(self.error_at());
        }
        self.next();
        let ghost st2 = self.pstate();
        let rhs = match self.parse_expression() {
            Ok(e) => e,
            Err(e) => {
                return Err(e);
            },
        };
        let ghost idv = expr_view(*id);
        let ghost rhsv = expr_view(*rhs);
        let node = Box::new(ExprAST { kind: ExprKind::AssignmentAST { var: id, assign: rhs } });
        proof {
            let st_a = old(self).pstate();
            let nm = match st_a.cur.token_type {
                TokV::Identifier { name } => name,
                _ => arbitrary(),
            };
            assert(st2 == spec_advance(spec_advance(st_a)));
            let (rhs_v, st3) = spec_parse_expression(st2)->Ok_0;
            assert(idv == (ExprV::Variable { name: nm }));
            assert(rhsv == rhs_v);
            assert(expr_view(*node) == (ExprV::Assignment {
                var: Box::new(idv),
                assign: Box::new(rhsv),
            }));
            assert(expr_view(*node) == (ExprV::Assignment {
                var: Box::new(ExprV::Variable { name: nm }),
                assign: Box::new(rhs_v),
            }));
            assert(spec_parse_assign(st_a) == Ok::<(ExprV, PState), ParseErrorV>(
                (
                    ExprV::Assignment {
                        var: Box::new(ExprV::Variable { name: nm }),
                        assign: Box::new(rhs_v),
                    },
                    st3,
                ),
            ));
        }
        Ok(node)
    }

    /// The top-level statement list: skips tokens outside the
    /// `begin`/`end` region and the separators inside it, and parses each
    /// statement. Always terminates, matched `end` or not: the stream's
    /// end yields the end of the statement list.
    pub fn parse(&mut self) -> (r: Result<Vec<Box<ExprAST>>, ParseError>)
        requires
            old(self).wf(),
        ensures
            final(self).wf(),
            final(self).tokens == old(self).tokens,
            final(self).idx >= old(self).idx,
            match (r, spec_parse(old(self).pstate(), false)) {
                (Ok(v), Ok(evs)) => stmts_view(v@) == evs,
                (Err(pe), Err(ev)) => pe@ == ev,
                _ => false,
            },
    {
        let ghost t0 = self.tokens;
        let ghost i0 = self.idx;
        let mut p_vec = Vec::<Box<ExprAST>>::new();
        let mut program_start = false;
        loop
            invariant_except_break
                t0 == old(self).tokens,
                i0 == old(self).idx,
                self.wf(),
                self.tokens == t0,
                self.idx >= i0,
                spec_parse(old(self).pstate(), false) == match spec_parse(
                    self.pstate(),
                    program_start,
                ) {
                    Ok(more) => Ok::<Seq<ExprV>, ParseErrorV>(stmts_view(p_vec@) + more),
                    Err(e) => Err::<Seq<ExprV>, ParseErrorV>(e),
                },
            ensures
                t0 == old(self).tokens,
                i0 == old(self).idx,
                self.wf(),
                self.tokens == t0,
                self.idx >= i0,
                spec_parse(old(self).pstate(), false) == Ok::<Seq<ExprV>, ParseErrorV>(
                    stmts_view(p_vec@),
                ),
            decreases self.tokens@.len() - self.idx,
        {
            let ghost st_it = self.pstate();
            let ghost ps_it = program_start;
            let ghost stmts0 = p_vec@;
            self.next();
            let sel: u8 = match &self.current.token_type {
                TokenType::ScanEof => 0,
                TokenType::Begin => 1,
                TokenType::End => 2,
                TokenType::Semicolon => 3,
                TokenType::LineComment => 4,
                TokenType::Identifier { name: _ } => 5,
                _ => 6,
            };
            if sel == 0 {
                proof {
                    assert(stmts_view(p_vec@) + Seq::<ExprV>::empty() =~= stmts_view(p_vec@));
                }
                break;
            }
            if sel == 1 {
                program_start = true;
                continue;
            }
            if sel == 2 {
                program_start = false;
                continue;
            }
            if sel == 3 || sel == 4 {
                continue;
            }
            if !program_start {
                continue;
            }
            let v = if sel == 5 {
                self.parse_assign()
            } else {
                self.parse_expression()
            };
            let e = match v {
                Ok(e) => e,
                Err(e) => {
                    return Err(e);
                },
            };
            p_vec.push(e);
            proof {
                let st1 = spec_advance(st_it);
                let r_it = if st1.cur.token_type is Identifier {
                    spec_parse_assign(st1)
                } else {
                    spec_parse_expression(st1)
                };
                let (e_v, st2) = r_it->Ok_0;
                assert(st2 == self.pstate());
                assert(st2.rest.len() < st_it.rest.len());
                assert(stmts_view(p_vec@) =~= stmts_view(stmts0) + seq![e_v]);
                assert(match spec_parse(st2, program_start) {
                    Ok(more) => stmts_view(stmts0) + (seq![e_v] + more) =~= stmts_view(p_vec@)
                        + more,
                    Err(e2) => true,
                });
            }
        }
        Ok(p_vec)
    }
}

} // verus!
