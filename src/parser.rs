//! Recursive-descent parsing of tokens into statements.
use vstd::prelude::*;

use crate::ast::{
    lemma_stmts_model_push, stmt_model, stmts_model, BinaryOp, Expr, LiteralValue, Stmt, StmtModel, Token, TokenKind,
    UnaryOp,
};
use crate::ast::{tokens_view, TokenModel};
use crate::result::{diagnostic, Diagnostic, Error, RloxResult, Stage};
use crate::interpreter::same_outcome;
use crate::scanner::{lemma_lex_advances, lex_at, scan_from, scan_spec, Lexed};
use vstd::string::StringExecFns;

verus! {

/// A parsed value and how many tokens it took beyond its first one; or a
/// diagnostic and the position of the cursor when it was raised.
pub type Parsed<T> = Result<(T, nat), (Diagnostic, int)>;

pub open spec fn kind_at(t: Seq<Token>, p: int) -> TokenKind {
    if 0 <= p < t.len() {
        t[p].kind
    } else {
        TokenKind::EOF
    }
}

pub open spec fn line_at(t: Seq<Token>, p: int) -> nat {
    if 0 <= p < t.len() {
        t[p].line as nat
    } else if t.len() > 0 {
        t.last().line as nat
    } else {
        0
    }
}

/// How many tokens are left from position `p`.
pub open spec fn remaining(t: Seq<Token>, p: int) -> nat {
    if p < t.len() {
        (t.len() - p) as nat
    } else {
        0
    }
}

/// A parser diagnostic pointing at the token at `p`.
pub open spec fn parse_error(t: Seq<Token>, p: int, msg: Seq<char>) -> Diagnostic {
    diagnostic(Stage::Parser, line_at(t, p), msg)
}

/// A failure at position `p`, pointing at the token there.
pub open spec fn fail<T>(t: Seq<Token>, p: int, msg: Seq<char>) -> Parsed<T> {
    Err((parse_error(t, p, msg), p))
}

/// A well-formed token sequence ends with the end-of-input token.
pub open spec fn tokens_wf(t: Seq<Token>) -> bool {
    t.len() > 0 && t.last().kind == TokenKind::EOF
}

/// The binary operator that a token kind stands for at a precedence level:
/// 0 equality, 1 comparison, 2 term, 3 factor.
pub open spec fn level_op(level: nat, k: TokenKind) -> Option<BinaryOp> {
    if level == 0 {
        if k == TokenKind::BangEqual {
            Some(BinaryOp::NotEqual)
        } else if k == TokenKind::EqualEqual {
            Some(BinaryOp::Equal)
        } else {
            None
        }
    } else if level == 1 {
        if k == TokenKind::Less {
            Some(BinaryOp::Less)
        } else if k == TokenKind::LessEqual {
            Some(BinaryOp::LessEqual)
        } else if k == TokenKind::Greater {
            Some(BinaryOp::Greater)
        } else if k == TokenKind::GreaterEqual {
            Some(BinaryOp::GreaterEqual)
        } else {
            None
        }
    } else if level == 2 {
        if k == TokenKind::Plus {
            Some(BinaryOp::Plus)
        } else if k == TokenKind::Minus {
            Some(BinaryOp::Minus)
        } else {
            None
        }
    } else {
        if k == TokenKind::Slash {
            Some(BinaryOp::Slash)
        } else if k == TokenKind::Star {
            Some(BinaryOp::Star)
        } else {
            None
        }
    }
}

pub open spec fn msg_expected_name() -> Seq<char> {
    "Expected variable name."@
}

pub open spec fn msg_semicolon_var() -> Seq<char> {
    "Expected ';' after variable declaration."@
}

pub open spec fn msg_semicolon_value() -> Seq<char> {
    "Expected ';' after value"@
}

pub open spec fn msg_semicolon_expr() -> Seq<char> {
    "Expected ';' after expression"@
}

pub open spec fn msg_close_block() -> Seq<char> {
    "Expected '}' after block."@
}

pub open spec fn msg_invalid_target() -> Seq<char> {
    "Invalid assignment target."@
}

pub open spec fn msg_close_paren() -> Seq<char> {
    "Expected ')' after expression."@
}

pub open spec fn msg_expected_expr() -> Seq<char> {
    "Expected expression"@
}

/// expression → assignment
pub open spec fn expression(t: Seq<Token>, p: int) -> Parsed<Expr>
    decreases remaining(t, p), 13nat,
{
    assignment(t, p)
}

/// assignment → equality ( "=" assignment )?, where the left side must be a variable.
pub open spec fn assignment(t: Seq<Token>, p: int) -> Parsed<Expr>
    decreases remaining(t, p), 12nat,
{
    match binary(t, 0, p) {
        Err(d) => Err(d),
        Ok((e, k)) => {
            let q = p + k + 1;
            if kind_at(t, q) == TokenKind::Equal {
                match assignment(t, q + 1) {
                    Err(d) => Err(d),
                    Ok((v, j)) => match e {
                        Expr::Variable(name) => Ok((Expr::Assign(name, Box::new(v)), k + j + 2)),
                        _ => Err((parse_error(t, q, msg_invalid_target()), q + j + 2)),
                    },
                }
            } else {
                Ok((e, k))
            }
        },
    }
}

/// One left-associative precedence level: an operand, then any number of
/// (operator, operand) pairs folded to the left.
pub open spec fn binary(t: Seq<Token>, level: nat, p: int) -> Parsed<Expr>
    decreases remaining(t, p), 10 - 2 * level,
    when level <= 3
{
    match operand(t, level, p) {
        Err(d) => Err(d),
        Ok((e, k)) => match binary_rest(t, level, e, p + k + 1) {
            Err(d) => Err(d),
            Ok((r, j)) => Ok((r, k + j)),
        },
    }
}

/// The operand of a precedence level: the next level, or a unary expression.
pub open spec fn operand(t: Seq<Token>, level: nat, p: int) -> Parsed<Expr>
    decreases remaining(t, p), 9 - 2 * level,
    when level <= 3
{
    if level < 3 {
        binary(t, level + 1, p)
    } else {
        unary(t, p)
    }
}

/// The (operator, operand) pairs after `left` at position `q`; the count is
/// of all the tokens taken (possibly none).
pub open spec fn binary_rest(t: Seq<Token>, level: nat, left: Expr, q: int) -> Parsed<Expr>
    decreases remaining(t, q), 9 - 2 * level,
    when level <= 3
{
    match level_op(level, kind_at(t, q)) {
        None => Ok((left, 0)),
        Some(op) => match operand(t, level, q + 1) {
            Err(d) => Err(d),
            Ok((right, k)) => match binary_rest(
                t,
                level,
                Expr::Binary(Box::new(left), op, Box::new(right), t[q].line as usize),
                q + k + 2,
            ) {
                Err(d) => Err(d),
                Ok((e, j)) => Ok((e, k + j + 2)),
            },
        },
    }
}

/// unary → ( "!" | "-" ) unary | primary
pub open spec fn unary(t: Seq<Token>, p: int) -> Parsed<Expr>
    decreases remaining(t, p), 2nat,
{
    let k = kind_at(t, p);
    if k == TokenKind::Bang || k == TokenKind::Minus {
        let op = if k == TokenKind::Bang {
            UnaryOp::Not
        } else {
            UnaryOp::Neg
        };
        match unary(t, p + 1) {
            Err(d) => Err(d),
            Ok((e, j)) => Ok((Expr::Unary(op, Box::new(e), t[p].line as usize), j + 1)),
        }
    } else {
        primary(t, p)
    }
}

/// primary → NUMBER | STRING | "true" | "false" | "nil" | IDENT | "(" expression ")"
pub open spec fn primary(t: Seq<Token>, p: int) -> Parsed<Expr>
    decreases remaining(t, p), 1nat,
{
    let k = kind_at(t, p);
    if k == TokenKind::Number {
        Ok((Expr::Literal(LiteralValue::Number(t[p].literal)), 0))
    } else if k == TokenKind::String {
        Ok((Expr::Literal(LiteralValue::String(t[p].literal)), 0))
    } else if k == TokenKind::True {
        Ok((Expr::Literal(LiteralValue::True), 0))
    } else if k == TokenKind::False {
        Ok((Expr::Literal(LiteralValue::False), 0))
    } else if k == TokenKind::Nil {
        Ok((Expr::Literal(LiteralValue::Nil), 0))
    } else if k == TokenKind::Identifier {
        Ok((Expr::Variable(t[p]), 0))
    } else if k == TokenKind::LeftParen {
        match expression(t, p + 1) {
            Err(d) => Err(d),
            Ok((e, j)) => if kind_at(t, p + j + 2) == TokenKind::RightParen {
                Ok((Expr::Grouping(Box::new(e)), j + 2))
            } else {
                fail(t, p + j + 2, msg_close_paren())
            },
        }
    } else {
        fail(t, p, msg_expected_expr())
    }
}

/// declaration → "var" IDENT ( "=" expression )? ";" | statement
pub open spec fn declaration(t: Seq<Token>, p: int) -> Parsed<StmtModel>
    decreases remaining(t, p), 4nat,
{
    if kind_at(t, p) == TokenKind::Var {
        match var_declaration(t, p + 1) {
            Err(d) => Err(d),
            Ok((s, k)) => Ok((s, k + 1)),
        }
    } else {
        statement(t, p)
    }
}

/// The rest of a variable declaration, from the name on.
pub open spec fn var_declaration(t: Seq<Token>, p: int) -> Parsed<StmtModel> {
    if kind_at(t, p) != TokenKind::Identifier {
        fail(t, p, msg_expected_name())
    } else if kind_at(t, p + 1) == TokenKind::Equal {
        match expression(t, p + 2) {
            Err(d) => Err(d),
            Ok((e, k)) => if kind_at(t, p + k + 3) == TokenKind::Semicolon {
                Ok((StmtModel::Var(t[p], Some(Box::new(e))), k + 3))
            } else {
                fail(t, p + k + 3, msg_semicolon_var())
            },
        }
    } else if kind_at(t, p + 1) == TokenKind::Semicolon {
        Ok((StmtModel::Var(t[p], None), 1))
    } else {
        fail(t, p + 1, msg_semicolon_var())
    }
}

/// statement → "print" expression ";" | "{" declaration* "}" | expression ";"
pub open spec fn statement(t: Seq<Token>, p: int) -> Parsed<StmtModel>
    decreases remaining(t, p), 3nat,
{
    let k = kind_at(t, p);
    if k == TokenKind::Print {
        match expression(t, p + 1) {
            Err(d) => Err(d),
            Ok((e, j)) => if kind_at(t, p + j + 2) == TokenKind::Semicolon {
                Ok((StmtModel::Print(e), j + 2))
            } else {
                fail(t, p + j + 2, msg_semicolon_value())
            },
        }
    } else if k == TokenKind::LeftBrace {
        match block_items(t, p + 1) {
            Err(d) => Err(d),
            Ok((body, j)) => Ok((StmtModel::Block(body), j + 1)),
        }
    } else {
        match expression(t, p) {
            Err(d) => Err(d),
            Ok((e, j)) => if kind_at(t, p + j + 1) == TokenKind::Semicolon {
                Ok((StmtModel::Expression(e), j + 1))
            } else {
                fail(t, p + j + 1, msg_semicolon_expr())
            },
        }
    }
}

/// The declarations of a block up to and including its `}`.
pub open spec fn block_items(t: Seq<Token>, p: int) -> Parsed<Seq<StmtModel>>
    decreases remaining(t, p), 5nat,
{
    let k = kind_at(t, p);
    if k == TokenKind::RightBrace {
        Ok((Seq::empty(), 0))
    } else if k == TokenKind::EOF {
        fail(t, p, msg_close_block())
    } else {
        match declaration(t, p) {
            Err(d) => Err(d),
            Ok((s, j)) => match block_items(t, p + j + 1) {
                Err(d) => Err(d),
                Ok((rest, i)) => Ok((seq![s] + rest, j + i + 1)),
            },
        }
    }
}

/// How many tokens error recovery discards from `p`: up to and including the
/// next `;`, stopping before the end of input.
pub open spec fn discard(t: Seq<Token>, p: int) -> nat
    decreases t.len() - p,
{
    if p < 0 || p >= t.len() || t[p].kind == TokenKind::EOF {
        0
    } else if t[p].kind == TokenKind::Semicolon {
        1
    } else {
        1 + discard(t, p + 1)
    }
}

/// program → declaration* EOF, from position `p`: the statements parsed and
/// the diagnostics raised. After a failed declaration, parsing resumes past
/// the tokens that [`discard`] counts from where the cursor stopped.
pub open spec fn program(t: Seq<Token>, p: int) -> (Seq<StmtModel>, Seq<Diagnostic>)
    decreases remaining(t, p),
    via program_decreases
{
    if p < 0 || p >= t.len() || t[p].kind == TokenKind::EOF {
        (Seq::empty(), Seq::empty())
    } else {
        match declaration(t, p) {
            Ok((s, k)) => {
                let (rest, errs) = program(t, p + k + 1);
                (seq![s] + rest, errs)
            },
            Err((d, at)) => {
                let from = if at > p {
                    at
                } else {
                    p
                };
                let (rest, errs) = program(t, from + discard(t, from));
                (rest, seq![d] + errs)
            },
        }
    }
}

#[via_fn]
proof fn program_decreases(t: Seq<Token>, p: int) {
    if 0 <= p < t.len() && t[p].kind != TokenKind::EOF {
        reveal_with_fuel(discard, 2);
    }
}

pub open spec fn msg_expected_end() -> Seq<char> {
    "Expected end of input."@
}

/// A token sequence that holds exactly one expression.
pub open spec fn expression_spec(t: Seq<Token>) -> Result<Expr, Diagnostic> {
    match expression(t, 0) {
        Err((d, _)) => Err(d),
        Ok((e, k)) => if kind_at(t, k as int + 1) == TokenKind::EOF {
            Ok(e)
        } else {
            Err(parse_error(t, k as int + 1, msg_expected_end()))
        },
    }
}

/// The statements of a token sequence, or every diagnostic raised.
pub open spec fn parse_spec(t: Seq<Token>) -> Result<Seq<StmtModel>, Seq<Diagnostic>> {
    let (stmts, errs) = program(t, 0);
    if errs.len() == 0 {
        Ok(stmts)
    } else {
        Err(errs)
    }
}

} // verus!

verus! {

/// Whether `r` is what the grammar function gave as `s`, for a parse that
/// started at `from` and left the cursor at `to`.
pub open spec fn outcome<T, V>(r: Result<T, Error>, s: Parsed<V>, model: spec_fn(T) -> V, from: int, to: int) -> bool {
    match s {
        Ok((v, k)) => r is Ok && model(r->Ok_0) == v && to == from + k + 1,
        Err((d, at)) => r is Err && r->Err_0@ == d && to == at,
    }
}

pub open spec fn errors_view(v: Seq<Error>) -> Seq<Diagnostic> {
    v.map_values(|e: Error| e@)
}

/// Parser state: the tokens and a cursor into them.
pub struct Parser {
    tokens: Vec<Token>,
    current: usize,
}

impl Parser {
    pub closed spec fn wf(&self) -> bool {
        tokens_wf(self.tokens@) && self.current < self.tokens@.len()
    }

    pub closed spec fn cursor(&self) -> int {
        self.current as int
    }

    pub closed spec fn toks(&self) -> Seq<Token> {
        self.tokens@
    }

    /// Parses a token sequence into statements. Every failed declaration adds
    /// one diagnostic; any diagnostic makes the whole parse fail.
    pub fn parse(tokens: Vec<Token>) -> (r: Result<Vec<Stmt>, Vec<Error>>)
        requires
            tokens_wf(tokens@),
        ensures
            match parse_spec(tokens@) {
                Ok(ss) => r is Ok && stmts_model(r->Ok_0@) == ss,
                Err(ds) => r is Err && errors_view(r->Err_0@) == ds,
            },
    {
        let mut parser = Parser { tokens, current: 0 };
        let (statements, errors) = parser.program();
        if errors.len() > 0 {
            Err(errors)
        } else {
            Ok(statements)
        }
    }

    /// Parses a token sequence that holds a single expression.
    pub fn parse_expression(tokens: Vec<Token>) -> (r: RloxResult<Expr>)
        requires
            tokens_wf(tokens@),
        ensures
            same_outcome(r, expression_spec(tokens@), |e: Expr| e),
    {
        let mut parser = Parser { tokens, current: 0 };
        let expr = match parser.expression() {
            Ok(e) => e,
            Err(e) => return Err(e),
        };
        if parser.is_at_end() {
            Ok(expr)
        } else {
            Err(parser.err("Expected end of input."))
        }
    }

    #[verifier::rlimit(60)]
    fn program(&mut self) -> (r: (Vec<Stmt>, Vec<Error>))
        requires
            old(self).wf(),
        ensures
            program(old(self).toks(), old(self).cursor()) == (stmts_model(r.0@), errors_view(
                r.1@,
            )),
    {
        let ghost t = self.tokens@;
        let ghost p0 = self.current as int;
        let mut statements: Vec<Stmt> = Vec::new();
        let mut errors: Vec<Error> = Vec::new();
        while !self.is_at_end()
            invariant
                self.wf(),
                self.tokens@ == t,
                t == old(self).toks(),
                p0 == old(self).cursor(),
                program(t, p0) == (
                    stmts_model(statements@) + program(t, self.current as int).0,
                    errors_view(errors@) + program(t, self.current as int).1,
                ),
            decreases remaining(t, self.current as int),
        {
            let ghost p = self.current as int;
            proof {
                reveal_with_fuel(discard, 2);
            }
            proof {
                lemma_program_step(t, p);
            }
            match self.declaration() {
                Ok(statement) => {
                    let ghost prev = statements@;
                    let ghost before = stmts_model(statements@);
                    statements.push(statement);
                    proof {
                        lemma_stmts_model_push(prev, statements@.last());
                        assert(statements@ == prev.push(statements@.last()));
                        let rest = program(t, self.current as int).0;
                        assert(before + (seq![stmt_model(&statements@.last())] + rest)
                            =~= stmts_model(statements@) + rest);
                    }
                },
                Err(e) => {
                    let ghost before = errors_view(errors@);
                    errors.push(e);
                    self.synchronize();
                    proof {
                        assert(errors_view(errors@) =~= before.push(e@));
                        let errs = program(t, self.current as int).1;
                        assert(before + (seq![e@] + errs) =~= errors_view(errors@) + errs);
                    }
                },
            }
        }
        proof {
            assert(stmts_model(statements@) + Seq::empty() =~= stmts_model(statements@));
            assert(errors_view(errors@) + Seq::empty() =~= errors_view(errors@));
        }
        (statements, errors)
    }

    /// Discards tokens up to and including the next `;`, stopping at the end
    /// of input.
    fn synchronize(&mut self)
        requires
            old(self).wf(),
        ensures
            final(self).wf(),
            final(self).toks() == old(self).toks(),
            final(self).cursor() == old(self).cursor() + discard(
                old(self).toks(),
                old(self).cursor(),
            ),
    {
        let ghost t = self.tokens@;
        let ghost from = self.current as int;
        while !self.is_at_end()
            invariant
                self.wf(),
                self.tokens@ == t,
                t == old(self).toks(),
                from == old(self).cursor(),
                from <= self.current,
                from + discard(t, from) == self.current + discard(t, self.current as int),
            decreases t.len() - self.current,
        {
            if self.kind() == TokenKind::Semicolon {
                self.advance();
                return;
            }
            self.advance();
        }
    }

    fn declaration(&mut self) -> (r: RloxResult<Stmt>)
        requires
            old(self).wf(),
        ensures
            final(self).wf(),
            final(self).toks() == old(self).toks(),
            old(self).cursor() <= final(self).cursor(),
            outcome(
                r,
                declaration(old(self).toks(), old(self).cursor()),
                |s: Stmt| stmt_model(&s),
                old(self).cursor(),
                final(self).cursor(),
            ),
        decreases remaining(old(self).toks(), old(self).cursor()), 4nat,
    {
        if self.kind() == TokenKind::Var {
            self.advance();
            self.var_declaration()
        } else {
            self.statement()
        }
    }

    fn var_declaration(&mut self) -> (r: RloxResult<Stmt>)
        requires
            old(self).wf(),
        ensures
            final(self).wf(),
            final(self).toks() == old(self).toks(),
            old(self).cursor() <= final(self).cursor(),
            outcome(
                r,
                var_declaration(old(self).toks(), old(self).cursor()),
                |s: Stmt| stmt_model(&s),
                old(self).cursor(),
                final(self).cursor(),
            ),
    {
        if self.kind() != TokenKind::Identifier {
            return Err(self.err("Expected variable name."));
        }
        let name = self.tokens[self.current].duplicate();
        self.advance();
        if self.kind() == TokenKind::Equal {
            self.advance();
            let initializer = match self.expression() {
                Ok(e) => e,
                Err(e) => return Err(e),
            };
            match self.consume(TokenKind::Semicolon, "Expected ';' after variable declaration.") {
                Ok(()) => Ok(Stmt::Var(name, Some(Box::new(initializer)))),
                Err(e) => Err(e),
            }
        } else {
            match self.consume(TokenKind::Semicolon, "Expected ';' after variable declaration.") {
                Ok(()) => Ok(Stmt::Var(name, None)),
                Err(e) => Err(e),
            }
        }
    }

    fn statement(&mut self) -> (r: RloxResult<Stmt>)
        requires
            old(self).wf(),
        ensures
            final(self).wf(),
            final(self).toks() == old(self).toks(),
            old(self).cursor() <= final(self).cursor(),
            outcome(
                r,
                statement(old(self).toks(), old(self).cursor()),
                |s: Stmt| stmt_model(&s),
                old(self).cursor(),
                final(self).cursor(),
            ),
        decreases remaining(old(self).toks(), old(self).cursor()), 3nat,
    {
        let k = self.kind();
        if k == TokenKind::Print {
            self.print_statement()
        } else if k == TokenKind::LeftBrace {
            self.advance();
            match self.block() {
                Ok(body) => Ok(Stmt::Block(body)),
                Err(e) => Err(e),
            }
        } else {
            self.expression_statement()
        }
    }

    fn print_statement(&mut self) -> (r: RloxResult<Stmt>)
        requires
            old(self).wf(),
            old(self).toks()[old(self).cursor()].kind == TokenKind::Print,
        ensures
            final(self).wf(),
            final(self).toks() == old(self).toks(),
            old(self).cursor() <= final(self).cursor(),
            outcome(
                r,
                statement(old(self).toks(), old(self).cursor()),
                |s: Stmt| stmt_model(&s),
                old(self).cursor(),
                final(self).cursor(),
            ),
    {
        self.advance();
        let value = match self.expression() {
            Ok(e) => e,
            Err(e) => return Err(e),
        };
        match self.consume(TokenKind::Semicolon, "Expected ';' after value") {
            Ok(()) => Ok(Stmt::Print(Box::new(value))),
            Err(e) => Err(e),
        }
    }

    fn expression_statement(&mut self) -> (r: RloxResult<Stmt>)
        requires
            old(self).wf(),
            old(self).toks()[old(self).cursor()].kind != TokenKind::Print,
            old(self).toks()[old(self).cursor()].kind != TokenKind::LeftBrace,
        ensures
            final(self).wf(),
            final(self).toks() == old(self).toks(),
            old(self).cursor() <= final(self).cursor(),
            outcome(
                r,
                statement(old(self).toks(), old(self).cursor()),
                |s: Stmt| stmt_model(&s),
                old(self).cursor(),
                final(self).cursor(),
            ),
    {
        let expr = match self.expression() {
            Ok(e) => e,
            Err(e) => return Err(e),
        };
        match self.consume(TokenKind::Semicolon, "Expected ';' after expression") {
            Ok(()) => Ok(Stmt::Expression(Box::new(expr))),
            Err(e) => Err(e),
        }
    }

    /// The declarations of a block, after its `{`, through its `}`.
    fn block(&mut self) -> (r: RloxResult<Vec<Stmt>>)
        requires
            old(self).wf(),
        ensures
            final(self).wf(),
            final(self).toks() == old(self).toks(),
            old(self).cursor() <= final(self).cursor(),
            outcome(
                r,
                block_items(old(self).toks(), old(self).cursor()),
                |v: Vec<Stmt>| stmts_model(v@),
                old(self).cursor(),
                final(self).cursor(),
            ),
        decreases remaining(old(self).toks(), old(self).cursor()), 5nat,
    {
        let ghost t = self.tokens@;
        let ghost p = self.current as int;
        let mut body: Vec<Stmt> = Vec::new();
        proof {
            assert(stmts_model(body@) =~= Seq::<StmtModel>::empty());
            match block_items(t, p) {
                Ok((s, j)) => {
                    assert(Seq::<StmtModel>::empty() + s =~= s);
                },
                _ => {},
            }
        }
        while self.kind() != TokenKind::RightBrace && !self.is_at_end()
            invariant
                self.wf(),
                self.tokens@ == t,
                t == old(self).toks(),
                p == old(self).cursor(),
                p <= self.current,
                block_items(t, p) == extend_items(
                    block_items(t, self.current as int),
                    stmts_model(body@),
                    (self.current - p) as nat,
                ),
            decreases remaining(t, self.current as int),
        {
            let ghost q = self.current as int;
            let ghost prev = body@;
            let ghost before = stmts_model(body@);
            match self.declaration() {
                Ok(s) => {
                    body.push(s);
                    proof {
                        lemma_stmts_model_push(prev, body@.last());
                        assert(body@ == prev.push(body@.last()));
                        match block_items(t, self.current as int) {
                            Ok((rest, i)) => {
                                assert(before + (seq![stmt_model(&body@.last())] + rest)
                                    =~= stmts_model(body@) + rest);
                            },
                            _ => {},
                        }
                    }
                },
                Err(e) => {
                    return Err(e);
                },
            }
        }
        match self.consume(TokenKind::RightBrace, "Expected '}' after block.") {
            Ok(()) => {
                proof {
                    assert(stmts_model(body@) + Seq::empty() =~= stmts_model(body@));
                }
                Ok(body)
            },
            Err(e) => Err(e),
        }
    }

    fn expression(&mut self) -> (r: RloxResult<Expr>)
        requires
            old(self).wf(),
        ensures
            final(self).wf(),
            final(self).toks() == old(self).toks(),
            old(self).cursor() <= final(self).cursor(),
            outcome(
                r,
                expression(old(self).toks(), old(self).cursor()),
                |e: Expr| e,
                old(self).cursor(),
                final(self).cursor(),
            ),
        decreases remaining(old(self).toks(), old(self).cursor()), 13nat,
    {
        self.assignment()
    }

    fn assignment(&mut self) -> (r: RloxResult<Expr>)
        requires
            old(self).wf(),
        ensures
            final(self).wf(),
            final(self).toks() == old(self).toks(),
            old(self).cursor() <= final(self).cursor(),
            outcome(
                r,
                assignment(old(self).toks(), old(self).cursor()),
                |e: Expr| e,
                old(self).cursor(),
                final(self).cursor(),
            ),
        decreases remaining(old(self).toks(), old(self).cursor()), 12nat,
    {
        let expr = match self.binary(0) {
            Ok(e) => e,
            Err(e) => return Err(e),
        };
        if self.kind() == TokenKind::Equal {
            let line = self.tokens[self.current].line;
            self.advance();
            let value = match self.assignment() {
                Ok(v) => v,
                Err(e) => return Err(e),
            };
            match expr {
                Expr::Variable(name) => Ok(Expr::Assign(name, Box::new(value))),
                _ => Err(Error::Parser(line, String::from_str("Invalid assignment target."))),
            }
        } else {
            Ok(expr)
        }
    }

    /// The operator of `level` that the current token stands for.
    fn level_op(&self, level: u8) -> (r: Option<BinaryOp>)
        requires
            self.wf(),
        ensures
            r == level_op(level as nat, kind_at(self.toks(), self.cursor())),
    {
        let k = self.kind();
        if level == 0 {
            if k == TokenKind::BangEqual {
                Some(BinaryOp::NotEqual)
            } else if k == TokenKind::EqualEqual {
                Some(BinaryOp::Equal)
            } else {
                None
            }
        } else if level == 1 {
            if k == TokenKind::Less {
                Some(BinaryOp::Less)
            } else if k == TokenKind::LessEqual {
                Some(BinaryOp::LessEqual)
            } else if k == TokenKind::Greater {
                Some(BinaryOp::Greater)
            } else if k == TokenKind::GreaterEqual {
                Some(BinaryOp::GreaterEqual)
            } else {
                None
            }
        } else if level == 2 {
            if k == TokenKind::Plus {
                Some(BinaryOp::Plus)
            } else if k == TokenKind::Minus {
                Some(BinaryOp::Minus)
            } else {
                None
            }
        } else {
            if k == TokenKind::Slash {
                Some(BinaryOp::Slash)
            } else if k == TokenKind::Star {
                Some(BinaryOp::Star)
            } else {
                None
            }
        }
    }

    /// One precedence level (0 equality, 1 comparison, 2 term, 3 factor):
    /// operands joined by the level's operators, folded to the left.
    fn binary(&mut self, level: u8) -> (r: RloxResult<Expr>)
        requires
            old(self).wf(),
            level <= 3,
        ensures
            final(self).wf(),
            final(self).toks() == old(self).toks(),
            old(self).cursor() <= final(self).cursor(),
            outcome(
                r,
                binary(old(self).toks(), level as nat, old(self).cursor()),
                |e: Expr| e,
                old(self).cursor(),
                final(self).cursor(),
            ),
        decreases remaining(old(self).toks(), old(self).cursor()), 10 - 2 * level,
    {
        let ghost t = self.tokens@;
        let ghost p = self.current as int;
        let mut expr = match self.operand(level) {
            Ok(e) => e,
            Err(e) => return Err(e),
        };
        loop
            invariant
                self.wf(),
                self.tokens@ == t,
                t == old(self).toks(),
                p == old(self).cursor(),
                p < self.current,
                level <= 3,
                binary(t, level as nat, p) == extend(
                    binary_rest(t, level as nat, expr, self.current as int),
                    (self.current - p - 1) as nat,
                ),
            decreases remaining(t, self.current as int),
        {
            let op = match self.level_op(level) {
                Some(op) => op,
                None => {
                    return Ok(expr);
                },
            };
            let line = self.tokens[self.current].line;
            self.advance();
            let right = match self.operand(level) {
                Ok(e) => e,
                Err(e) => return Err(e),
            };
            expr = Expr::Binary(Box::new(expr), op, Box::new(right), line);
        }
    }

    fn operand(&mut self, level: u8) -> (r: RloxResult<Expr>)
        requires
            old(self).wf(),
            level <= 3,
        ensures
            final(self).wf(),
            final(self).toks() == old(self).toks(),
            old(self).cursor() <= final(self).cursor(),
            outcome(
                r,
                operand(old(self).toks(), level as nat, old(self).cursor()),
                |e: Expr| e,
                old(self).cursor(),
                final(self).cursor(),
            ),
        decreases remaining(old(self).toks(), old(self).cursor()), 9 - 2 * level,
    {
        if level < 3 {
            self.binary(level + 1)
        } else {
            self.unary()
        }
    }

    fn unary(&mut self) -> (r: RloxResult<Expr>)
        requires
            old(self).wf(),
        ensures
            final(self).wf(),
            final(self).toks() == old(self).toks(),
            old(self).cursor() <= final(self).cursor(),
            outcome(
                r,
                unary(old(self).toks(), old(self).cursor()),
                |e: Expr| e,
                old(self).cursor(),
                final(self).cursor(),
            ),
        decreases remaining(old(self).toks(), old(self).cursor()), 2nat,
    {
        let k = self.kind();
        if k == TokenKind::Bang || k == TokenKind::Minus {
            let op = if k == TokenKind::Bang {
                UnaryOp::Not
            } else {
                UnaryOp::Neg
            };
            let line = self.tokens[self.current].line;
            self.advance();
            match self.unary() {
                Ok(e) => Ok(Expr::Unary(op, Box::new(e), line)),
                Err(e) => Err(e),
            }
        } else {
            self.primary()
        }
    }

    fn primary(&mut self) -> (r: RloxResult<Expr>)
        requires
            old(self).wf(),
        ensures
            final(self).wf(),
            final(self).toks() == old(self).toks(),
            old(self).cursor() <= final(self).cursor(),
            outcome(
                r,
                primary(old(self).toks(), old(self).cursor()),
                |e: Expr| e,
                old(self).cursor(),
                final(self).cursor(),
            ),
        decreases remaining(old(self).toks(), old(self).cursor()), 1nat,
    {
        let k = self.kind();
        if k == TokenKind::Number {
            let text = self.tokens[self.current].literal.clone();
            self.advance();
            Ok(Expr::Literal(LiteralValue::Number(text)))
        } else if k == TokenKind::String {
            let text = self.tokens[self.current].literal.clone();
            self.advance();
            Ok(Expr::Literal(LiteralValue::String(text)))
        } else if k == TokenKind::True {
            self.advance();
            Ok(Expr::Literal(LiteralValue::True))
        } else if k == TokenKind::False {
            self.advance();
            Ok(Expr::Literal(LiteralValue::False))
        } else if k == TokenKind::Nil {
            self.advance();
            Ok(Expr::Literal(LiteralValue::Nil))
        } else if k == TokenKind::Identifier {
            let name = self.tokens[self.current].duplicate();
            self.advance();
            Ok(Expr::Variable(name))
        } else if k == TokenKind::LeftParen {
            self.advance();
            let expr = match self.expression() {
                Ok(e) => e,
                Err(e) => return Err(e),
            };
            match self.consume(TokenKind::RightParen, "Expected ')' after expression.") {
                Ok(()) => Ok(Expr::Grouping(Box::new(expr))),
                Err(e) => Err(e),
            }
        } else {
            Err(self.err("Expected expression"))
        }
    }

    /// The kind of the current token.
    fn kind(&self) -> (r: TokenKind)
        requires
            self.wf(),
        ensures
            r == kind_at(self.toks(), self.cursor()),
    {
        self.tokens[self.current].kind
    }

    /// Moves past the current token, which is not the end of input.
    fn advance(&mut self)
        requires
            old(self).wf(),
            kind_at(old(self).toks(), old(self).cursor()) != TokenKind::EOF,
        ensures
            final(self).wf(),
            final(self).toks() == old(self).toks(),
            final(self).cursor() == old(self).cursor() + 1,
    {
        if self.current < self.tokens.len() - 1 {
            self.current = self.current + 1;
        }
    }

    /// Moves past the current token when it is of `kind`; otherwise fails
    /// with `msg` at the current token.
    fn consume(&mut self, kind: TokenKind, msg: &str) -> (r: RloxResult<()>)
        requires
            old(self).wf(),
            kind != TokenKind::EOF,
        ensures
            final(self).wf(),
            final(self).toks() == old(self).toks(),
            kind_at(old(self).toks(), old(self).cursor()) == kind ==> r is Ok
                && final(self).cursor() == old(self).cursor() + 1,
            kind_at(old(self).toks(), old(self).cursor()) != kind ==> r is Err && r->Err_0@
                == parse_error(old(self).toks(), old(self).cursor(), msg@) && final(self).cursor()
                == old(self).cursor(),
    {
        if self.kind() == kind {
            self.advance();
            Ok(())
        } else {
            Err(self.err(msg))
        }
    }

    fn is_at_end(&self) -> (r: bool)
        requires
            self.wf(),
        ensures
            r == (kind_at(self.toks(), self.cursor()) == TokenKind::EOF),
    {
        self.kind() == TokenKind::EOF
    }

    /// A parser diagnostic at the current token.
    fn err(&self, msg: &str) -> (r: Error)
        requires
            self.wf(),
        ensures
            r@ == parse_error(self.toks(), self.cursor(), msg@),
    {
        Error::Parser(self.tokens[self.current].line, String::from_str(msg))
    }
}

/// One step of [`program`] at a position that is not the end of input.
pub proof fn lemma_program_step(t: Seq<Token>, p: int)
    requires
        0 <= p < t.len(),
        t[p].kind != TokenKind::EOF,
    ensures
        program(t, p) == match declaration(t, p) {
            Ok((s, k)) => (seq![s] + program(t, p + k + 1).0, program(t, p + k + 1).1),
            Err((d, at)) => {
                let from = if at > p {
                    at
                } else {
                    p
                };
                (program(t, from + discard(t, from)).0, seq![d] + program(t, from + discard(t, from)).1)
            },
        },
{
}

/// `r` with `n` more tokens counted.
pub open spec fn extend(r: Parsed<Expr>, n: nat) -> Parsed<Expr> {
    match r {
        Ok((e, k)) => Ok((e, k + n)),
        Err(f) => Err(f),
    }
}

/// `r` behind the statements `pre`, with `n` more tokens counted.
pub open spec fn extend_items(r: Parsed<Seq<StmtModel>>, pre: Seq<StmtModel>, n: nat) -> Parsed<
    Seq<StmtModel>,
> {
    match r {
        Ok((s, k)) => Ok((pre + s, k + n)),
        Err(f) => Err(f),
    }
}

} // verus!

verus! {

/// What the scanner hands over ends with the end-of-input token.
pub proof fn lemma_scanned_tokens_wf(source: Seq<char>, tokens: Seq<Token>)
    requires
        scan_spec(source) == Ok::<_, Diagnostic>(tokens_view(tokens)),
    ensures
        tokens_wf(tokens),
{
    lemma_scan_from_ends(source, 0, 1);
    assert(tokens_view(tokens).len() == tokens.len());
    assert(tokens_view(tokens).last() == tokens.last()@);
}

/// A successful scan ends with the end-of-input token.
pub proof fn lemma_scan_from_ends(s: Seq<char>, i: int, line: nat)
    ensures
        scan_from(s, i, line) matches Ok(ts) ==> ts.len() > 0 && ts.last().kind == TokenKind::EOF,
    decreases s.len() - i,
{
    if 0 <= i < s.len() {
        lemma_lex_advances(s, i, line);
        match lex_at(s, i, line) {
            Lexed::Skip { next, line } => lemma_scan_from_ends(s, next, line),
            Lexed::Emit { kind, next, line: after, literal } => {
                lemma_scan_from_ends(s, next, after);
                match scan_from(s, next, after) {
                    Ok(rest) => {
                        let t = TokenModel { kind, line, lexeme: s.subrange(i, next), literal };
                        assert((seq![t] + rest).last() == rest.last());
                    },
                    Err(_) => {},
                }
            },
            Lexed::Fail(_) => {},
        }
    }
}

} // verus!

verus! {

/// The literal expression of the number token at `p`.
pub open spec fn number_literal(t: Seq<Token>, p: int) -> Expr {
    Expr::Literal(LiteralValue::Number(t[p].literal))
}

proof fn lemma_number_operand(t: Seq<Token>, p: int)
    requires
        0 <= p < t.len(),
        t[p].kind == TokenKind::Number,
    ensures
        primary(t, p) == Ok::<_, (Diagnostic, int)>((number_literal(t, p), 0nat)),
        unary(t, p) == Ok::<_, (Diagnostic, int)>((number_literal(t, p), 0nat)),
        operand(t, 3, p) == Ok::<_, (Diagnostic, int)>((number_literal(t, p), 0nat)),
{
}

/// Finishes a statement `e;` that took `n` tokens beyond its first, followed
/// only by the end of input.
proof fn lemma_single_statement(t: Seq<Token>, e: Expr, n: nat)
    requires
        t.len() == n + 3,
        t[n as int + 1].kind == TokenKind::Semicolon,
        t[n as int + 2].kind == TokenKind::EOF,
        t[0].kind != TokenKind::Var && t[0].kind != TokenKind::Print && t[0].kind
            != TokenKind::LeftBrace && t[0].kind != TokenKind::EOF,
        binary(t, 0, 0) == Ok::<_, (Diagnostic, int)>((e, n)),
    ensures
        parse_spec(t) == Ok::<_, Seq<Diagnostic>>(seq![StmtModel::Expression(e)]),
{
    assert(assignment(t, 0) == Ok::<_, (Diagnostic, int)>((e, n)));
    assert(expression(t, 0) == Ok::<_, (Diagnostic, int)>((e, n)));
    assert(statement(t, 0) == Ok::<_, (Diagnostic, int)>((StmtModel::Expression(e), n + 1)));
    assert(declaration(t, 0) == Ok::<_, (Diagnostic, int)>((StmtModel::Expression(e), n + 1)));
    assert(program(t, n as int + 2) == (Seq::<StmtModel>::empty(), Seq::<Diagnostic>::empty()));
    assert(seq![StmtModel::Expression(e)] + Seq::<StmtModel>::empty() =~= seq![StmtModel::Expression(e)]);
}

/// `*` binds tighter than `+` on either side: `a + b * c;` parses as
/// `a + (b * c)` and `a * b + c;` as `(a * b) + c`, with no grouping node.
pub proof fn law_product_binds_tighter_than_sum(t: Seq<Token>)
    requires
        t.len() == 7,
        t[0].kind == TokenKind::Number,
        t[2].kind == TokenKind::Number,
        t[4].kind == TokenKind::Number,
        t[5].kind == TokenKind::Semicolon,
        t[6].kind == TokenKind::EOF,
        (t[1].kind == TokenKind::Plus && t[3].kind == TokenKind::Star) || (t[1].kind
            == TokenKind::Star && t[3].kind == TokenKind::Plus),
    ensures
        t[1].kind == TokenKind::Plus ==> parse_spec(t) == Ok::<_, Seq<Diagnostic>>(
            seq![
                StmtModel::Expression(
                    Expr::Binary(
                        Box::new(number_literal(t, 0)),
                        BinaryOp::Plus,
                        Box::new(
                            Expr::Binary(
                                Box::new(number_literal(t, 2)),
                                BinaryOp::Star,
                                Box::new(number_literal(t, 4)),
                                t[3].line as usize,
                            ),
                        ),
                        t[1].line as usize,
                    ),
                ),
            ],
        ),
        t[1].kind == TokenKind::Star ==> parse_spec(t) == Ok::<_, Seq<Diagnostic>>(
            seq![
                StmtModel::Expression(
                    Expr::Binary(
                        Box::new(
                            Expr::Binary(
                                Box::new(number_literal(t, 0)),
                                BinaryOp::Star,
                                Box::new(number_literal(t, 2)),
                                t[1].line as usize,
                            ),
                        ),
                        BinaryOp::Plus,
                        Box::new(number_literal(t, 4)),
                        t[3].line as usize,
                    ),
                ),
            ],
        ),
{
    let l0 = number_literal(t, 0);
    let l2 = number_literal(t, 2);
    let l4 = number_literal(t, 4);
    lemma_number_operand(t, 0);
    lemma_number_operand(t, 2);
    lemma_number_operand(t, 4);
    if t[1].kind == TokenKind::Plus {
        let b24 = Expr::Binary(Box::new(l2), BinaryOp::Star, Box::new(l4), t[3].line as usize);
        let x = Expr::Binary(Box::new(l0), BinaryOp::Plus, Box::new(b24), t[1].line as usize);
        assert(binary_rest(t, 3, l0, 1) == Ok::<_, (Diagnostic, int)>((l0, 0nat)));
        assert(binary(t, 3, 0) == Ok::<_, (Diagnostic, int)>((l0, 0nat)));
        assert(operand(t, 2, 0) == Ok::<_, (Diagnostic, int)>((l0, 0nat)));
        assert(binary_rest(t, 3, b24, 5) == Ok::<_, (Diagnostic, int)>((b24, 0nat)));
        assert(binary_rest(t, 3, l2, 3) == Ok::<_, (Diagnostic, int)>((b24, 2nat)));
        assert(binary(t, 3, 2) == Ok::<_, (Diagnostic, int)>((b24, 2nat)));
        assert(operand(t, 2, 2) == Ok::<_, (Diagnostic, int)>((b24, 2nat)));
        assert(binary_rest(t, 2, x, 5) == Ok::<_, (Diagnostic, int)>((x, 0nat)));
        assert(binary_rest(t, 2, l0, 1) == Ok::<_, (Diagnostic, int)>((x, 4nat)));
        assert(binary(t, 2, 0) == Ok::<_, (Diagnostic, int)>((x, 4nat)));
        assert(operand(t, 1, 0) == Ok::<_, (Diagnostic, int)>((x, 4nat)));
        assert(binary_rest(t, 1, x, 5) == Ok::<_, (Diagnostic, int)>((x, 0nat)));
        assert(binary(t, 1, 0) == Ok::<_, (Diagnostic, int)>((x, 4nat)));
        assert(operand(t, 0, 0) == Ok::<_, (Diagnostic, int)>((x, 4nat)));
        assert(binary_rest(t, 0, x, 5) == Ok::<_, (Diagnostic, int)>((x, 0nat)));
        assert(binary(t, 0, 0) == Ok::<_, (Diagnostic, int)>((x, 4nat)));
        lemma_single_statement(t, x, 4);
    } else {
        let b02 = Expr::Binary(Box::new(l0), BinaryOp::Star, Box::new(l2), t[1].line as usize);
        let y = Expr::Binary(Box::new(b02), BinaryOp::Plus, Box::new(l4), t[3].line as usize);
        assert(binary_rest(t, 3, b02, 3) == Ok::<_, (Diagnostic, int)>((b02, 0nat)));
        assert(binary_rest(t, 3, l0, 1) == Ok::<_, (Diagnostic, int)>((b02, 2nat)));
        assert(binary(t, 3, 0) == Ok::<_, (Diagnostic, int)>((b02, 2nat)));
        assert(operand(t, 2, 0) == Ok::<_, (Diagnostic, int)>((b02, 2nat)));
        assert(binary_rest(t, 3, l4, 5) == Ok::<_, (Diagnostic, int)>((l4, 0nat)));
        assert(binary(t, 3, 4) == Ok::<_, (Diagnostic, int)>((l4, 0nat)));
        assert(operand(t, 2, 4) == Ok::<_, (Diagnostic, int)>((l4, 0nat)));
        assert(binary_rest(t, 2, y, 5) == Ok::<_, (Diagnostic, int)>((y, 0nat)));
        assert(binary_rest(t, 2, b02, 3) == Ok::<_, (Diagnostic, int)>((y, 2nat)));
        assert(binary(t, 2, 0) == Ok::<_, (Diagnostic, int)>((y, 4nat)));
        assert(operand(t, 1, 0) == Ok::<_, (Diagnostic, int)>((y, 4nat)));
        assert(binary_rest(t, 1, y, 5) == Ok::<_, (Diagnostic, int)>((y, 0nat)));
        assert(binary(t, 1, 0) == Ok::<_, (Diagnostic, int)>((y, 4nat)));
        assert(operand(t, 0, 0) == Ok::<_, (Diagnostic, int)>((y, 4nat)));
        assert(binary_rest(t, 0, y, 5) == Ok::<_, (Diagnostic, int)>((y, 0nat)));
        assert(binary(t, 0, 0) == Ok::<_, (Diagnostic, int)>((y, 4nat)));
        lemma_single_statement(t, y, 4);
    }
}

} // verus!
