use vstd::prelude::*;

use crate::error::ErrorV;
use crate::error_reporter::{token_error, ErrorReporter};
use crate::expression::{Expr, ExprV};
use crate::statement::{Stmt, StmtV};
use crate::token::{Token, TokenV};
use crate::token_type::TokenType;

verus! {

/// The token a parse error is reported at.
#[derive(Debug)]
pub enum ParseError {
    UnexpectedToken(Token),
}

impl View for ParseError {
    type V = TokenV;

    open spec fn view(&self) -> TokenV {
        match self {
            ParseError::UnexpectedToken(t) => t@,
        }
    }
}

/// A well-formed token stream: non-empty and ending in `EOF`, as the
/// scanner produces it.
pub open spec fn tokens_wf(ts: Seq<TokenV>) -> bool {
    ts.len() >= 1 && ts[ts.len() - 1].kind == TokenType::EOF
}

/// The token at `i`, or a stand-in `EOF` token out of range.
pub open spec fn peek_at(ts: Seq<TokenV>, i: int) -> TokenV {
    if 0 <= i < ts.len() {
        ts[i]
    } else {
        TokenV { kind: TokenType::EOF, lexeme: Seq::empty(), line: 0 }
    }
}

/// Whether the stream is exhausted at `i`: the current token is `EOF`.
pub open spec fn at_end(ts: Seq<TokenV>, i: int) -> bool {
    peek_at(ts, i).kind == TokenType::EOF
}

/// `i` clamped into the stream: out-of-range positions count as the end.
pub open spec fn norm_i(ts: Seq<TokenV>, i: int) -> int {
    if 0 <= i <= ts.len() {
        i
    } else {
        ts.len() as int
    }
}

/// A forward step from `i` to `j`, clamped to the end of the stream when
/// `j` would not move forward; used only to state termination.
pub open spec fn step_up(ts: Seq<TokenV>, i: int, j: int) -> int {
    if norm_i(ts, i) < j <= ts.len() {
        j
    } else {
        ts.len() as int
    }
}

/// A stand-in token for fields that a result does not use.
pub open spec fn no_tok() -> TokenV {
    TokenV { kind: TokenType::EOF, lexeme: Seq::empty(), line: 0 }
}

/// A stand-in expression for fields that a result does not use.
pub open spec fn no_expr() -> ExprV {
    ExprV::Literal(no_tok())
}

/// The outcome of parsing one expression (or of consuming one expected
/// token): on success `expr` and the next position; on failure the token
/// the parse stopped at.  `errs` are the diagnostics reported meanwhile.
#[verifier::ext_equal]
pub ghost struct PE {
    pub ok: bool,
    pub expr: ExprV,
    pub etok: TokenV,
    pub i: int,
    pub errs: Seq<ErrorV>,
}

/// The outcome of parsing one statement.
#[verifier::ext_equal]
pub ghost struct PS {
    pub ok: bool,
    pub stmt: StmtV,
    pub etok: TokenV,
    pub i: int,
    pub errs: Seq<ErrorV>,
}

/// The outcome of parsing a whole program: the statements of every
/// successfully parsed statement, and every diagnostic reported.
#[verifier::ext_equal]
pub ghost struct PP {
    pub stmts: Seq<StmtV>,
    pub errs: Seq<ErrorV>,
}

/// Consuming one expected token kind: on success the position moves past
/// it; on failure a diagnostic is reported at the offending token.
pub open spec fn p_consume(ts: Seq<TokenV>, i: int, kind: TokenType, msg: Seq<char>) -> PE {
    let t = peek_at(ts, i);
    let hit = if at_end(ts, i) {
        kind == TokenType::EOF
    } else {
        t.kind == kind
    };
    if hit {
        let ni = if at_end(ts, i) {
            i
        } else {
            i + 1
        };
        PE { ok: true, expr: no_expr(), etok: no_tok(), i: ni, errs: Seq::empty() }
    } else {
        PE { ok: false, expr: no_expr(), etok: t, i, errs: seq![token_error(t, msg)] }
    }
}

/// Whether `kind` is an operator of the given binary-precedence level:
/// 2 factor, 3 term, 4 comparison, 5 equality, 6 logical.
pub open spec fn level_op(level: int, kind: TokenType) -> bool {
    if level == 2 {
        kind == TokenType::Slash || kind == TokenType::Star
    } else if level == 3 {
        kind == TokenType::Minus || kind == TokenType::Plus
    } else if level == 4 {
        kind == TokenType::Greater || kind == TokenType::GreaterEqual || kind == TokenType::Less
            || kind == TokenType::LessEqual
    } else if level == 5 {
        kind == TokenType::BangEqual || kind == TokenType::EqualEqual
    } else if level == 6 {
        kind == TokenType::And || kind == TokenType::Or
    } else {
        false
    }
}

/// A primary expression: a literal or identifier token, or a
/// parenthesized group.  Any other token is a parse failure with a
/// compile diagnostic at the offending token, as is a group's missing
/// close paren.
pub open spec fn p_primary(ts: Seq<TokenV>, i: int) -> PE
    decreases ts.len() - norm_i(ts, i), 0int, 1int,
{
    let t = peek_at(ts, i);
    if t.kind == TokenType::False || t.kind == TokenType::True || t.kind == TokenType::Null
        || t.kind == TokenType::Number || t.kind == TokenType::String || t.kind
        == TokenType::Identifier {
        PE { ok: true, expr: ExprV::Literal(t), etok: no_tok(), i: i + 1, errs: Seq::empty() }
    } else if t.kind == TokenType::LeftParen {
        let r = p_expression(ts, i + 1);
        if r.ok {
            let c = p_consume(ts, r.i, TokenType::RightParen, "Expect ')' after expression."@);
            if c.ok {
                PE {
                    ok: true,
                    expr: ExprV::Grouping(Box::new(r.expr)),
                    etok: no_tok(),
                    i: c.i,
                    errs: r.errs + c.errs,
                }
            } else {
                PE { ok: false, expr: no_expr(), etok: c.etok, i: c.i, errs: r.errs + c.errs }
            }
        } else {
            r
        }
    } else {
        PE {
            ok: false,
            expr: no_expr(),
            etok: t,
            i,
            errs: seq![token_error(t, "Unexpected token."@)],
        }
    }
}

/// A unary expression: `not` or `-` applied to a unary expression, or a
/// primary expression.
pub open spec fn p_unary(ts: Seq<TokenV>, i: int) -> PE
    decreases ts.len() - norm_i(ts, i), 1int, 1int,
{
    let t = peek_at(ts, i);
    if t.kind == TokenType::Not || t.kind == TokenType::Minus {
        let r = p_unary(ts, i + 1);
        if r.ok {
            PE {
                ok: true,
                expr: ExprV::Unary(t, Box::new(r.expr)),
                etok: no_tok(),
                i: r.i,
                errs: r.errs,
            }
        } else {
            r
        }
    } else {
        p_primary(ts, i)
    }
}

/// A binary level clamped into its legal range, for termination
/// measures.
pub open spec fn lvl_c(level: int) -> int {
    if 2 <= level <= 6 {
        level
    } else {
        2
    }
}

/// The operand below a binary level: the next binary level down, or a
/// unary expression below the lowest.
pub open spec fn p_below(ts: Seq<TokenV>, i: int, level: int) -> PE
    decreases ts.len() - norm_i(ts, i), lvl_c(level), 0int,
{
    if 3 <= level <= 6 {
        p_level(ts, i, level - 1)
    } else {
        p_unary(ts, i)
    }
}

/// One left-associative binary-precedence level.
pub open spec fn p_level(ts: Seq<TokenV>, i: int, level: int) -> PE
    decreases ts.len() - norm_i(ts, i), lvl_c(level), 1int,
{
    let r = p_below(ts, i, level);
    if r.ok {
        let rest = p_level_rest(ts, r.expr, step_up(ts, i, r.i), level);
        PE { ok: rest.ok, expr: rest.expr, etok: rest.etok, i: rest.i, errs: r.errs + rest.errs }
    } else {
        r
    }
}

/// The left-associative tail of a binary level: while the current token
/// is an operator of this level, parse the next operand and fold it into
/// `acc` from the left.
pub open spec fn p_level_rest(ts: Seq<TokenV>, acc: ExprV, i: int, level: int) -> PE
    decreases ts.len() - norm_i(ts, i), lvl_c(level), 0int,
{
    let t = peek_at(ts, i);
    if level_op(level, t.kind) {
        let r = p_below(ts, i + 1, level);
        if r.ok {
            let rest = p_level_rest(
                ts,
                ExprV::Binary(Box::new(acc), t, Box::new(r.expr)),
                step_up(ts, i, r.i),
                level,
            );
            PE {
                ok: rest.ok,
                expr: rest.expr,
                etok: rest.etok,
                i: rest.i,
                errs: r.errs + rest.errs,
            }
        } else {
            r
        }
    } else {
        PE { ok: true, expr: acc, etok: no_tok(), i, errs: Seq::empty() }
    }
}

/// An assignment expression: a logical expression, optionally followed by
/// `=` and another assignment, grouping right to left.
pub open spec fn p_assignment(ts: Seq<TokenV>, i: int) -> PE
    decreases ts.len() - norm_i(ts, i), 7int, 1int,
{
    let r = p_level(ts, i, 6);
    if r.ok {
        let t = peek_at(ts, r.i);
        if t.kind == TokenType::Equal && 0 <= i < ts.len() {
            let rhs = p_assignment(ts, step_up(ts, i, r.i + 1));
            if rhs.ok {
                PE {
                    ok: true,
                    expr: ExprV::Binary(Box::new(r.expr), t, Box::new(rhs.expr)),
                    etok: no_tok(),
                    i: rhs.i,
                    errs: r.errs + rhs.errs,
                }
            } else {
                PE {
                    ok: false,
                    expr: no_expr(),
                    etok: rhs.etok,
                    i: rhs.i,
                    errs: r.errs + rhs.errs,
                }
            }
        } else {
            r
        }
    } else {
        r
    }
}

/// An expression: the lowest precedence level is assignment.
pub open spec fn p_expression(ts: Seq<TokenV>, i: int) -> PE
    decreases ts.len() - norm_i(ts, i), 8int, 1int,
{
    p_assignment(ts, i)
}

/// The end of a run of statement separators starting at `i`.
pub open spec fn sep_end(ts: Seq<TokenV>, i: int) -> int
    decreases ts.len() - norm_i(ts, i),
{
    let t = peek_at(ts, i);
    if (t.kind == TokenType::SemiColon || t.kind == TokenType::NewLine) && 0 <= i < ts.len() {
        sep_end(ts, i + 1)
    } else {
        norm_i(ts, i)
    }
}

/// One-or-more statement separators (semicolon, newline, or end of
/// input); anything else is a syntax error reported at the offending
/// token.
pub open spec fn p_end_of_stmt(ts: Seq<TokenV>, i: int) -> PE {
    let t = peek_at(ts, i);
    if at_end(ts, i) {
        PE { ok: true, expr: no_expr(), etok: no_tok(), i: norm_i(ts, i), errs: Seq::empty() }
    } else if t.kind == TokenType::SemiColon || t.kind == TokenType::NewLine {
        PE { ok: true, expr: no_expr(), etok: no_tok(), i: sep_end(ts, i), errs: Seq::empty() }
    } else {
        PE {
            ok: false,
            expr: no_expr(),
            etok: t,
            i: norm_i(ts, i),
            errs: seq![token_error(t, "Expected ';', EOL, or EOF."@)],
        }
    }
}

/// The body of one statement from position `i`: an expression closed by
/// statement separators, wrapped as a print statement or a bare
/// expression statement.
pub open spec fn p_stmt_tail(ts: Seq<TokenV>, i: int, is_print: bool) -> PS {
    let r = p_expression(ts, i);
    if r.ok {
        let e = p_end_of_stmt(ts, r.i);
        let stmt = if is_print {
            StmtV::Print(r.expr)
        } else {
            StmtV::Expression(r.expr)
        };
        if e.ok {
            PS { ok: true, stmt, etok: no_tok(), i: e.i, errs: r.errs + e.errs }
        } else {
            PS {
                ok: false,
                stmt: StmtV::Expression(no_expr()),
                etok: e.etok,
                i: e.i,
                errs: r.errs + e.errs,
            }
        }
    } else {
        PS { ok: false, stmt: StmtV::Expression(no_expr()), etok: r.etok, i: r.i, errs: r.errs }
    }
}

/// One statement: a `print`-prefixed expression or a bare expression,
/// each closed by statement separators.
pub open spec fn p_statement(ts: Seq<TokenV>, i: int) -> PS {
    if peek_at(ts, i).kind == TokenType::Print {
        p_stmt_tail(ts, i + 1, true)
    } else {
        p_stmt_tail(ts, i, false)
    }
}

/// Where panic-mode recovery lands, scanning forward from `j` (the
/// position after the error recovery's first step): it stops after a
/// statement separator, before a statement keyword, or at the end.
pub open spec fn sync_from(ts: Seq<TokenV>, j: int) -> int
    decreases ts.len() - norm_i(ts, j),
{
    if at_end(ts, j) || !(0 <= j - 1 < ts.len()) {
        norm_i(ts, j)
    } else if peek_at(ts, j - 1).kind == TokenType::SemiColon || peek_at(ts, j - 1).kind
        == TokenType::NewLine {
        norm_i(ts, j)
    } else if peek_at(ts, j).kind == TokenType::Class || peek_at(ts, j).kind == TokenType::Fun
        || peek_at(ts, j).kind == TokenType::Var || peek_at(ts, j).kind == TokenType::For
        || peek_at(ts, j).kind == TokenType::If || peek_at(ts, j).kind == TokenType::While
        || peek_at(ts, j).kind == TokenType::Print || peek_at(ts, j).kind == TokenType::Return {
        norm_i(ts, j)
    } else {
        sync_from(ts, norm_i(ts, j) + 1)
    }
}

/// Panic-mode recovery from position `i`: discard the offending token,
/// then scan as `sync_from` says.
pub open spec fn p_synchronize(ts: Seq<TokenV>, i: int) -> int {
    if at_end(ts, i) {
        norm_i(ts, i)
    } else {
        sync_from(ts, norm_i(ts, i) + 1)
    }
}

/// A whole program: statements until the end of the stream; a failed
/// statement is skipped by recovery, bounding one syntax error to one
/// statement.
pub open spec fn p_program(ts: Seq<TokenV>, i: int) -> PP
    decreases ts.len() - norm_i(ts, i),
{
    if at_end(ts, i) || !(0 <= i < ts.len()) {
        PP { stmts: Seq::empty(), errs: Seq::empty() }
    } else {
        let r = p_statement(ts, i);
        if r.ok {
            let rest = p_program(ts, step_up(ts, i, r.i));
            PP { stmts: seq![r.stmt] + rest.stmts, errs: r.errs + rest.errs }
        } else {
            let si = p_synchronize(ts, r.i);
            let rest = p_program(ts, step_up(ts, i, si));
            PP { stmts: rest.stmts, errs: r.errs + rest.errs }
        }
    }
}

/// Consumes tokens and produces statement trees by recursive descent,
/// one function per precedence level, recovering from syntax errors at
/// statement boundaries.
pub struct Parser {
    pub tokens: Vec<Token>,
    pub current: usize,
}

/// The parser's invariant: a well-formed token stream and a cursor on a
/// token (never past the `EOF` sentinel).
pub open spec fn parser_wf(p: Parser) -> bool {
    &&& tokens_wf(p.tokens.deep_view())
    &&& p.current < p.tokens.deep_view().len()
}

/// How an expression-level parse relates the machine result to the
/// grammar's: same success, same tree or offending token, same final
/// position, and the grammar's diagnostics appended to the reporter.
pub open spec fn pe_matches(
    s: PE,
    r: Result<Expr, ParseError>,
    pre: Parser,
    post: Parser,
    errs_pre: Seq<ErrorV>,
    errs_post: Seq<ErrorV>,
) -> bool {
    &&& post.tokens == pre.tokens
    &&& post.current as int == s.i
    &&& errs_post == errs_pre + s.errs
    &&& match r {
        Ok(e) => s.ok && e@ == s.expr,
        Err(pe) => !s.ok && pe@ == s.etok,
    }
}


/// How a statement-level parse relates the machine result to the
/// grammar's.
pub open spec fn ps_matches(
    s: PS,
    r: Result<Stmt, ParseError>,
    pre: Parser,
    post: Parser,
    errs_pre: Seq<ErrorV>,
    errs_post: Seq<ErrorV>,
) -> bool {
    &&& post.tokens == pre.tokens
    &&& post.current as int == s.i
    &&& errs_post == errs_pre + s.errs
    &&& match r {
        Ok(st) => s.ok && st@ == s.stmt,
        Err(pe) => !s.ok && pe@ == s.etok,
    }
}

impl Parser {
    /// A parser over `tokens`, with the cursor at the first token.
    pub fn new(tokens: Vec<Token>) -> (r: Parser)
        ensures
            r.tokens == tokens,
            r.current == 0,
    {
        Parser { tokens, current: 0 }
    }

    /// The token under the cursor.
    fn peek(&self) -> (t: Token)
        requires
            parser_wf(*self),
        ensures
            t@ == peek_at(self.tokens.deep_view(), self.current as int),
    {
        proof {
            assert(self.tokens.deep_view()[self.current as int] == self.tokens@[self.current as int]@);
        }
        self.tokens[self.current].dup()
    }

    /// Whether the cursor stands on the `EOF` token.
    fn is_at_end(&self) -> (r: bool)
        requires
            parser_wf(*self),
        ensures
            r == at_end(self.tokens.deep_view(), self.current as int),
    {
        let t = self.peek();
        t.token_type == TokenType::EOF
    }

    /// Whether the current token has the given kind (`EOF` checks for the
    /// end of the stream).
    fn check(&self, token_type: TokenType) -> (r: bool)
        requires
            parser_wf(*self),
        ensures
            r == (if at_end(self.tokens.deep_view(), self.current as int) {
                token_type == TokenType::EOF
            } else {
                peek_at(self.tokens.deep_view(), self.current as int).kind == token_type
            }),
    {
        if self.is_at_end() {
            return token_type == TokenType::EOF;
        }
        let t = self.peek();
        t.token_type == token_type
    }

    /// The token before the cursor.
    fn previous(&self) -> (t: Token)
        requires
            parser_wf(*self),
            1 <= self.current,
        ensures
            t@ == peek_at(self.tokens.deep_view(), self.current - 1),
    {
        proof {
            assert(self.tokens.deep_view()[self.current - 1] == self.tokens@[self.current - 1]@);
        }
        self.tokens[self.current - 1].dup()
    }

    /// Returns the current token and, unless it is `EOF`, moves past it.
    fn advance(&mut self) -> (t: Token)
        requires
            parser_wf(*old(self)),
        ensures
            parser_wf(*final(self)),
            final(self).tokens == old(self).tokens,
            t@ == peek_at(old(self).tokens.deep_view(), old(self).current as int),
            at_end(old(self).tokens.deep_view(), old(self).current as int) ==> final(self).current
                == old(self).current,
            !at_end(old(self).tokens.deep_view(), old(self).current as int)
                ==> final(self).current == old(self).current + 1,
    {
        let ghost ts = self.tokens.deep_view();
        let n = self.tokens.len();
        let t = self.peek();
        if !self.is_at_end() {
            proof {
                assert(ts.len() == n);
                assert(ts[ts.len() - 1].kind == TokenType::EOF);
                assert(self.current as int != ts.len() - 1);
            }
            self.current = self.current + 1;
        }
        t
    }

    /// Reports a syntax diagnostic at `token` and wraps the token as the
    /// parse failure.
    fn error(&self, token: Token, message: &str, reporter: &mut ErrorReporter) -> (r: ParseError)
        ensures
            final(reporter)@ == old(reporter)@.push(token_error(token@, message@)),
            r@ == token@,
    {
        let ghost tv = token@;
        let copy = token.dup();
        reporter.error_token(token, message);
        ParseError::UnexpectedToken(copy)
    }

    /// Consumes one token of the expected kind, or reports a diagnostic
    /// at the offending token.
    #[verifier::rlimit(100)]
    #[verifier::spinoff_prover]
    fn consume(&mut self, token_type: TokenType, message: &str, reporter: &mut ErrorReporter) -> (r:
        Result<(), ParseError>)
        requires
            parser_wf(*old(self)),
        ensures
            parser_wf(*final(self)),
            final(self).tokens == old(self).tokens,
            ({
                let s = p_consume(
                    old(self).tokens.deep_view(),
                    old(self).current as int,
                    token_type,
                    message@,
                );
                &&& final(self).current as int == s.i
                &&& final(reporter)@ == old(reporter)@ + s.errs
                &&& match r {
                    Ok(u) => s.ok,
                    Err(pe) => !s.ok && pe@ == s.etok,
                }
            }),
    {
        let ghost ts = self.tokens.deep_view();
        let ghost i0 = self.current as int;
        if self.check(token_type) {
            self.advance();
            proof {
                let s = p_consume(ts, i0, token_type, message@);
                assert(s.ok);
                if at_end(ts, i0) {
                    assert(s.i == i0);
                    assert(self.current as int == i0);
                } else {
                    assert(s.i == i0 + 1);
                    assert(self.current as int == i0 + 1);
                }
                assert(old(reporter)@ + Seq::<ErrorV>::empty() =~= old(reporter)@);
            }
            return Ok(());
        }
        let t = self.peek();
        let e = self.error(t, message, reporter);
        proof {
            assert(reporter@ =~= old(reporter)@ + p_consume(
                ts,
                old(self).current as int,
                token_type,
                message@,
            ).errs);
        }
        Err(e)
    }

    /// A primary expression: a literal, an identifier, or a parenthesized
    /// group.
    #[verifier::rlimit(60)]
    fn primary(&mut self, reporter: &mut ErrorReporter) -> (r: Result<Expr, ParseError>)
        requires
            parser_wf(*old(self)),
        ensures
            parser_wf(*final(self)),
            pe_matches(
                p_primary(old(self).tokens.deep_view(), old(self).current as int),
                r,
                *old(self),
                *final(self),
                old(reporter)@,
                final(reporter)@,
            ),
            old(self).current <= final(self).current,
            r is Ok ==> old(self).current < final(self).current,
        decreases old(self).tokens.deep_view().len() - old(self).current, 0int,
    {
        let ghost ts = self.tokens.deep_view();
        let ghost i0 = self.current as int;
        if self.check(TokenType::False) || self.check(TokenType::True) || self.check(
            TokenType::Null,
        ) || self.check(TokenType::Number) || self.check(TokenType::String) || self.check(
            TokenType::Identifier,
        ) {
            let t = self.advance();
            proof {
                assert(old(reporter)@ + Seq::<ErrorV>::empty() =~= old(reporter)@);
            }
            return Ok(Expr::Literal(t));
        }
        if self.check(TokenType::LeftParen) {
            self.advance();
            let inner = match self.expression(reporter) {
                Ok(e) => e,
                Err(pe) => {
                    return Err(pe);
                },
            };
            match self.consume(TokenType::RightParen, "Expect ')' after expression.", reporter) {
                Ok(u) => {
                    proof {
                        let s = p_primary(ts, i0);
                        assert(reporter@ =~= old(reporter)@ + s.errs);
                    }
                    Ok(Expr::Grouping(Box::new(inner)))
                },
                Err(pe) => {
                    proof {
                        let s = p_primary(ts, i0);
                        assert(reporter@ =~= old(reporter)@ + s.errs);
                    }
                    Err(pe)
                },
            }
        } else {
            let t = self.peek();
            let e = self.error(t, "Unexpected token.", reporter);
            proof {
                assert(reporter@ =~= old(reporter)@ + p_primary(ts, i0).errs);
            }
            Err(e)
        }
    }

    /// A unary expression: `not` or `-` applied to a unary expression.
    #[verifier::rlimit(60)]
    fn unary(&mut self, reporter: &mut ErrorReporter) -> (r: Result<Expr, ParseError>)
        requires
            parser_wf(*old(self)),
        ensures
            parser_wf(*final(self)),
            pe_matches(
                p_unary(old(self).tokens.deep_view(), old(self).current as int),
                r,
                *old(self),
                *final(self),
                old(reporter)@,
                final(reporter)@,
            ),
            old(self).current <= final(self).current,
            r is Ok ==> old(self).current < final(self).current,
        decreases old(self).tokens.deep_view().len() - old(self).current, 1int,
    {
        let ghost ts = self.tokens.deep_view();
        let ghost i0 = self.current as int;
        if self.check(TokenType::Not) || self.check(TokenType::Minus) {
            let operator = self.advance();
            let operand = match self.unary(reporter) {
                Ok(e) => e,
                Err(pe) => {
                    return Err(pe);
                },
            };
            Ok(Expr::Unary(operator, Box::new(operand)))
        } else {
            self.primary(reporter)
        }
    }

    /// A factor: `*` and `/` over unary expressions, left-associative.
    #[verifier::rlimit(60)]
    #[verifier::loop_isolation(false)]
    fn factor(&mut self, reporter: &mut ErrorReporter) -> (r: Result<Expr, ParseError>)
        requires
            parser_wf(*old(self)),
        ensures
            parser_wf(*final(self)),
            pe_matches(
                p_level(old(self).tokens.deep_view(), old(self).current as int, 2),
                r,
                *old(self),
                *final(self),
                old(reporter)@,
                final(reporter)@,
            ),
            old(self).current <= final(self).current,
            r is Ok ==> old(self).current < final(self).current,
        decreases old(self).tokens.deep_view().len() - old(self).current, 2int,
    {
        let ghost ts = self.tokens.deep_view();
        let ghost i0 = self.current as int;
        let ghost errs0 = reporter@;
        let mut expr = match self.unary(reporter) {
            Ok(e) => e,
            Err(pe) => {
                return Err(pe);
            },
        };
        let ghost mut emitted = p_unary(ts, i0).errs;
        proof {
            assert(reporter@ =~= errs0 + emitted);
            assert(p_level(ts, i0, 2) == ({
                let rest = p_level_rest(ts, expr@, self.current as int, 2);
                PE {
                    ok: rest.ok,
                    expr: rest.expr,
                    etok: rest.etok,
                    i: rest.i,
                    errs: emitted + rest.errs,
                }
            })) by {
                let rest = p_level_rest(ts, expr@, self.current as int, 2);
                assert(p_below(ts, i0, 2) == p_unary(ts, i0));
                assert(emitted + rest.errs =~= p_unary(ts, i0).errs + rest.errs);
            }
        }
        while self.check(TokenType::Slash) || self.check(TokenType::Star)
            invariant
                parser_wf(*self),
                self.tokens == old(self).tokens,
                self.tokens.deep_view() == ts,
                i0 < self.current as int,
                reporter@ == errs0 + emitted,
                p_level(ts, i0, 2) == ({
                    let rest = p_level_rest(ts, expr@, self.current as int, 2);
                    PE {
                        ok: rest.ok,
                        expr: rest.expr,
                        etok: rest.etok,
                        i: rest.i,
                        errs: emitted + rest.errs,
                    }
                }),
            decreases ts.len() - self.current,
        {
            let ghost cur = self.current as int;
            let ghost acc = expr@;
            let ghost em0 = emitted;
            let operator = self.advance();
            let right = match self.unary(reporter) {
                Ok(e) => e,
                Err(pe) => {
                    proof {
                        let r2 = p_below(ts, cur + 1, 2);
                        assert(p_level_rest(ts, acc, cur, 2) == r2);
                        assert(reporter@ =~= errs0 + (em0 + r2.errs));
                        assert(p_level(ts, i0, 2).errs =~= em0 + r2.errs);
                    }
                    return Err(pe);
                },
            };
            proof {
                let r2 = p_below(ts, cur + 1, 2);
                assert(r2 == p_unary(ts, cur + 1));
                emitted = em0 + r2.errs;
                assert(reporter@ =~= errs0 + emitted);
            }
            expr = Expr::Binary(Box::new(expr), operator, Box::new(right));
            proof {
                let r2 = p_below(ts, cur + 1, 2);
                let su = step_up(ts, cur, r2.i);
                assert(su == self.current as int);
                assert(p_level_rest(ts, acc, cur, 2) == ({
                    let rest2 = p_level_rest(ts, expr@, su, 2);
                    PE {
                        ok: rest2.ok,
                        expr: rest2.expr,
                        etok: rest2.etok,
                        i: rest2.i,
                        errs: r2.errs + rest2.errs,
                    }
                }));
                assert(emitted + p_level_rest(ts, expr@, su, 2).errs =~= em0 + (r2.errs
                    + p_level_rest(ts, expr@, su, 2).errs));
            }
        }
        proof {
            assert(p_level_rest(ts, expr@, self.current as int, 2) == (PE {
                ok: true,
                expr: expr@,
                etok: no_tok(),
                i: self.current as int,
                errs: Seq::empty(),
            }));
            assert(emitted + Seq::<ErrorV>::empty() =~= emitted);
        }
        Ok(expr)
    }

    /// A term: `+` and `-` over factors, left-associative.
    #[verifier::rlimit(60)]
    #[verifier::loop_isolation(false)]
    fn term(&mut self, reporter: &mut ErrorReporter) -> (r: Result<Expr, ParseError>)
        requires
            parser_wf(*old(self)),
        ensures
            parser_wf(*final(self)),
            pe_matches(
                p_level(old(self).tokens.deep_view(), old(self).current as int, 3),
                r,
                *old(self),
                *final(self),
                old(reporter)@,
                final(reporter)@,
            ),
            old(self).current <= final(self).current,
            r is Ok ==> old(self).current < final(self).current,
        decreases old(self).tokens.deep_view().len() - old(self).current, 3int,
    {
        let ghost ts = self.tokens.deep_view();
        let ghost i0 = self.current as int;
        let ghost errs0 = reporter@;
        let mut expr = match self.factor(reporter) {
            Ok(e) => e,
            Err(pe) => {
                return Err(pe);
            },
        };
        let ghost mut emitted = p_level(ts, i0, 2).errs;
        proof {
            assert(reporter@ =~= errs0 + emitted);
            assert(p_level(ts, i0, 3) == ({
                let rest = p_level_rest(ts, expr@, self.current as int, 3);
                PE {
                    ok: rest.ok,
                    expr: rest.expr,
                    etok: rest.etok,
                    i: rest.i,
                    errs: emitted + rest.errs,
                }
            })) by {
                let rest = p_level_rest(ts, expr@, self.current as int, 3);
                assert(p_below(ts, i0, 3) == p_level(ts, i0, 2));
                assert(emitted + rest.errs =~= p_level(ts, i0, 2).errs + rest.errs);
            }
        }
        while self.check(TokenType::Minus) || self.check(TokenType::Plus)
            invariant
                parser_wf(*self),
                self.tokens == old(self).tokens,
                self.tokens.deep_view() == ts,
                i0 < self.current as int,
                reporter@ == errs0 + emitted,
                p_level(ts, i0, 3) == ({
                    let rest = p_level_rest(ts, expr@, self.current as int, 3);
                    PE {
                        ok: rest.ok,
                        expr: rest.expr,
                        etok: rest.etok,
                        i: rest.i,
                        errs: emitted + rest.errs,
                    }
                }),
            decreases ts.len() - self.current,
        {
            let ghost cur = self.current as int;
            let ghost acc = expr@;
            let ghost em0 = emitted;
            let operator = self.advance();
            let right = match self.factor(reporter) {
                Ok(e) => e,
                Err(pe) => {
                    proof {
                        let r2 = p_below(ts, cur + 1, 3);
                        assert(p_level_rest(ts, acc, cur, 3) == r2);
                        assert(reporter@ =~= errs0 + (em0 + r2.errs));
                        assert(p_level(ts, i0, 3).errs =~= em0 + r2.errs);
                    }
                    return Err(pe);
                },
            };
            proof {
                let r2 = p_below(ts, cur + 1, 3);
                assert(r2 == p_level(ts, cur + 1, 2));
                emitted = em0 + r2.errs;
                assert(reporter@ =~= errs0 + emitted);
            }
            expr = Expr::Binary(Box::new(expr), operator, Box::new(right));
            proof {
                let r2 = p_below(ts, cur + 1, 3);
                let su = step_up(ts, cur, r2.i);
                assert(su == self.current as int);
                assert(p_level_rest(ts, acc, cur, 3) == ({
                    let rest2 = p_level_rest(ts, expr@, su, 3);
                    PE {
                        ok: rest2.ok,
                        expr: rest2.expr,
                        etok: rest2.etok,
                        i: rest2.i,
                        errs: r2.errs + rest2.errs,
                    }
                }));
                assert(emitted + p_level_rest(ts, expr@, su, 3).errs =~= em0 + (r2.errs
                    + p_level_rest(ts, expr@, su, 3).errs));
            }
        }
        proof {
            assert(p_level_rest(ts, expr@, self.current as int, 3) == (PE {
                ok: true,
                expr: expr@,
                etok: no_tok(),
                i: self.current as int,
                errs: Seq::empty(),
            }));
            assert(emitted + Seq::<ErrorV>::empty() =~= emitted);
        }
        Ok(expr)
    }

    /// A comparison: ordering operators over terms, left-associative.
    #[verifier::rlimit(60)]
    #[verifier::loop_isolation(false)]
    fn comparison(&mut self, reporter: &mut ErrorReporter) -> (r: Result<Expr, ParseError>)
        requires
            parser_wf(*old(self)),
        ensures
            parser_wf(*final(self)),
            pe_matches(
                p_level(old(self).tokens.deep_view(), old(self).current as int, 4),
                r,
                *old(self),
                *final(self),
                old(reporter)@,
                final(reporter)@,
            ),
            old(self).current <= final(self).current,
            r is Ok ==> old(self).current < final(self).current,
        decreases old(self).tokens.deep_view().len() - old(self).current, 4int,
    {
        let ghost ts = self.tokens.deep_view();
        let ghost i0 = self.current as int;
        let ghost errs0 = reporter@;
        let mut expr = match self.term(reporter) {
            Ok(e) => e,
            Err(pe) => {
                return Err(pe);
            },
        };
        let ghost mut emitted = p_level(ts, i0, 3).errs;
        proof {
            assert(reporter@ =~= errs0 + emitted);
            assert(p_level(ts, i0, 4) == ({
                let rest = p_level_rest(ts, expr@, self.current as int, 4);
                PE {
                    ok: rest.ok,
                    expr: rest.expr,
                    etok: rest.etok,
                    i: rest.i,
                    errs: emitted + rest.errs,
                }
            })) by {
                let rest = p_level_rest(ts, expr@, self.current as int, 4);
                assert(p_below(ts, i0, 4) == p_level(ts, i0, 3));
                assert(emitted + rest.errs =~= p_level(ts, i0, 3).errs + rest.errs);
            }
        }
        while self.check(TokenType::Greater) || self.check(TokenType::GreaterEqual) || self.check(TokenType::Less) || self.check(TokenType::LessEqual)
            invariant
                parser_wf(*self),
                self.tokens == old(self).tokens,
                self.tokens.deep_view() == ts,
                i0 < self.current as int,
                reporter@ == errs0 + emitted,
                p_level(ts, i0, 4) == ({
                    let rest = p_level_rest(ts, expr@, self.current as int, 4);
                    PE {
                        ok: rest.ok,
                        expr: rest.expr,
                        etok: rest.etok,
                        i: rest.i,
                        errs: emitted + rest.errs,
                    }
                }),
            decreases ts.len() - self.current,
        {
            let ghost cur = self.current as int;
            let ghost acc = expr@;
            let ghost em0 = emitted;
            let operator = self.advance();
            let right = match self.term(reporter) {
                Ok(e) => e,
                Err(pe) => {
                    proof {
                        let r2 = p_below(ts, cur + 1, 4);
                        assert(p_level_rest(ts, acc, cur, 4) == r2);
                        assert(reporter@ =~= errs0 + (em0 + r2.errs));
                        assert(p_level(ts, i0, 4).errs =~= em0 + r2.errs);
                    }
                    return Err(pe);
                },
            };
            proof {
                let r2 = p_below(ts, cur + 1, 4);
                assert(r2 == p_level(ts, cur + 1, 3));
                emitted = em0 + r2.errs;
                assert(reporter@ =~= errs0 + emitted);
            }
            expr = Expr::Binary(Box::new(expr), operator, Box::new(right));
            proof {
                let r2 = p_below(ts, cur + 1, 4);
                let su = step_up(ts, cur, r2.i);
                assert(su == self.current as int);
                assert(p_level_rest(ts, acc, cur, 4) == ({
                    let rest2 = p_level_rest(ts, expr@, su, 4);
                    PE {
                        ok: rest2.ok,
                        expr: rest2.expr,
                        etok: rest2.etok,
                        i: rest2.i,
                        errs: r2.errs + rest2.errs,
                    }
                }));
                assert(emitted + p_level_rest(ts, expr@, su, 4).errs =~= em0 + (r2.errs
                    + p_level_rest(ts, expr@, su, 4).errs));
            }
        }
        proof {
            assert(p_level_rest(ts, expr@, self.current as int, 4) == (PE {
                ok: true,
                expr: expr@,
                etok: no_tok(),
                i: self.current as int,
                errs: Seq::empty(),
            }));
            assert(emitted + Seq::<ErrorV>::empty() =~= emitted);
        }
        Ok(expr)
    }

    /// An equality: `==` and `!=` over comparisons, left-associative.
    #[verifier::rlimit(60)]
    #[verifier::loop_isolation(false)]
    fn equality(&mut self, reporter: &mut ErrorReporter) -> (r: Result<Expr, ParseError>)
        requires
            parser_wf(*old(self)),
        ensures
            parser_wf(*final(self)),
            pe_matches(
                p_level(old(self).tokens.deep_view(), old(self).current as int, 5),
                r,
                *old(self),
                *final(self),
                old(reporter)@,
                final(reporter)@,
            ),
            old(self).current <= final(self).current,
            r is Ok ==> old(self).current < final(self).current,
        decreases old(self).tokens.deep_view().len() - old(self).current, 5int,
    {
        let ghost ts = self.tokens.deep_view();
        let ghost i0 = self.current as int;
        let ghost errs0 = reporter@;
        let mut expr = match self.comparison(reporter) {
            Ok(e) => e,
            Err(pe) => {
                return Err(pe);
            },
        };
        let ghost mut emitted = p_level(ts, i0, 4).errs;
        proof {
            assert(reporter@ =~= errs0 + emitted);
            assert(p_level(ts, i0, 5) == ({
                let rest = p_level_rest(ts, expr@, self.current as int, 5);
                PE {
                    ok: rest.ok,
                    expr: rest.expr,
                    etok: rest.etok,
                    i: rest.i,
                    errs: emitted + rest.errs,
                }
            })) by {
                let rest = p_level_rest(ts, expr@, self.current as int, 5);
                assert(p_below(ts, i0, 5) == p_level(ts, i0, 4));
                assert(emitted + rest.errs =~= p_level(ts, i0, 4).errs + rest.errs);
            }
        }
        while self.check(TokenType::BangEqual) || self.check(TokenType::EqualEqual)
            invariant
                parser_wf(*self),
                self.tokens == old(self).tokens,
                self.tokens.deep_view() == ts,
                i0 < self.current as int,
                reporter@ == errs0 + emitted,
                p_level(ts, i0, 5) == ({
                    let rest = p_level_rest(ts, expr@, self.current as int, 5);
                    PE {
                        ok: rest.ok,
                        expr: rest.expr,
                        etok: rest.etok,
                        i: rest.i,
                        errs: emitted + rest.errs,
                    }
                }),
            decreases ts.len() - self.current,
        {
            let ghost cur = self.current as int;
            let ghost acc = expr@;
            let ghost em0 = emitted;
            let operator = self.advance();
            let right = match self.comparison(reporter) {
                Ok(e) => e,
                Err(pe) => {
                    proof {
                        let r2 = p_below(ts, cur + 1, 5);
                        assert(p_level_rest(ts, acc, cur, 5) == r2);
                        assert(reporter@ =~= errs0 + (em0 + r2.errs));
                        assert(p_level(ts, i0, 5).errs =~= em0 + r2.errs);
                    }
                    return Err(pe);
                },
            };
            proof {
                let r2 = p_below(ts, cur + 1, 5);
                assert(r2 == p_level(ts, cur + 1, 4));
                emitted = em0 + r2.errs;
                assert(reporter@ =~= errs0 + emitted);
            }
            expr = Expr::Binary(Box::new(expr), operator, Box::new(right));
            proof {
                let r2 = p_below(ts, cur + 1, 5);
                let su = step_up(ts, cur, r2.i);
                assert(su == self.current as int);
                assert(p_level_rest(ts, acc, cur, 5) == ({
                    let rest2 = p_level_rest(ts, expr@, su, 5);
                    PE {
                        ok: rest2.ok,
                        expr: rest2.expr,
                        etok: rest2.etok,
                        i: rest2.i,
                        errs: r2.errs + rest2.errs,
                    }
                }));
                assert(emitted + p_level_rest(ts, expr@, su, 5).errs =~= em0 + (r2.errs
                    + p_level_rest(ts, expr@, su, 5).errs));
            }
        }
        proof {
            assert(p_level_rest(ts, expr@, self.current as int, 5) == (PE {
                ok: true,
                expr: expr@,
                etok: no_tok(),
                i: self.current as int,
                errs: Seq::empty(),
            }));
            assert(emitted + Seq::<ErrorV>::empty() =~= emitted);
        }
        Ok(expr)
    }

    /// A logical expression: `and` and `or` over equalities,
    /// left-associative.
    #[verifier::rlimit(60)]
    #[verifier::loop_isolation(false)]
    fn logical(&mut self, reporter: &mut ErrorReporter) -> (r: Result<Expr, ParseError>)
        requires
            parser_wf(*old(self)),
        ensures
            parser_wf(*final(self)),
            pe_matches(
                p_level(old(self).tokens.deep_view(), old(self).current as int, 6),
                r,
                *old(self),
                *final(self),
                old(reporter)@,
                final(reporter)@,
            ),
            old(self).current <= final(self).current,
            r is Ok ==> old(self).current < final(self).current,
        decreases old(self).tokens.deep_view().len() - old(self).current, 6int,
    {
        let ghost ts = self.tokens.deep_view();
        let ghost i0 = self.current as int;
        let ghost errs0 = reporter@;
        let mut expr = match self.equality(reporter) {
            Ok(e) => e,
            Err(pe) => {
                return Err(pe);
            },
        };
        let ghost mut emitted = p_level(ts, i0, 5).errs;
        proof {
            assert(reporter@ =~= errs0 + emitted);
            assert(p_level(ts, i0, 6) == ({
                let rest = p_level_rest(ts, expr@, self.current as int, 6);
                PE {
                    ok: rest.ok,
                    expr: rest.expr,
                    etok: rest.etok,
                    i: rest.i,
                    errs: emitted + rest.errs,
                }
            })) by {
                let rest = p_level_rest(ts, expr@, self.current as int, 6);
                assert(p_below(ts, i0, 6) == p_level(ts, i0, 5));
                assert(emitted + rest.errs =~= p_level(ts, i0, 5).errs + rest.errs);
            }
        }
        while self.check(TokenType::And) || self.check(TokenType::Or)
            invariant
                parser_wf(*self),
                self.tokens == old(self).tokens,
                self.tokens.deep_view() == ts,
                i0 < self.current as int,
                reporter@ == errs0 + emitted,
                p_level(ts, i0, 6) == ({
                    let rest = p_level_rest(ts, expr@, self.current as int, 6);
                    PE {
                        ok: rest.ok,
                        expr: rest.expr,
                        etok: rest.etok,
                        i: rest.i,
                        errs: emitted + rest.errs,
                    }
                }),
            decreases ts.len() - self.current,
        {
            let ghost cur = self.current as int;
            let ghost acc = expr@;
            let ghost em0 = emitted;
            let operator = self.advance();
            let right = match self.equality(reporter) {
                Ok(e) => e,
                Err(pe) => {
                    proof {
                        let r2 = p_below(ts, cur + 1, 6);
                        assert(p_level_rest(ts, acc, cur, 6) == r2);
                        assert(reporter@ =~= errs0 + (em0 + r2.errs));
                        assert(p_level(ts, i0, 6).errs =~= em0 + r2.errs);
                    }
                    return Err(pe);
                },
            };
            proof {
                let r2 = p_below(ts, cur + 1, 6);
                assert(r2 == p_level(ts, cur + 1, 5));
                emitted = em0 + r2.errs;
                assert(reporter@ =~= errs0 + emitted);
            }
            expr = Expr::Binary(Box::new(expr), operator, Box::new(right));
            proof {
                let r2 = p_below(ts, cur + 1, 6);
                let su = step_up(ts, cur, r2.i);
                assert(su == self.current as int);
                assert(p_level_rest(ts, acc, cur, 6) == ({
                    let rest2 = p_level_rest(ts, expr@, su, 6);
                    PE {
                        ok: rest2.ok,
                        expr: rest2.expr,
                        etok: rest2.etok,
                        i: rest2.i,
                        errs: r2.errs + rest2.errs,
                    }
                }));
                assert(emitted + p_level_rest(ts, expr@, su, 6).errs =~= em0 + (r2.errs
                    + p_level_rest(ts, expr@, su, 6).errs));
            }
        }
        proof {
            assert(p_level_rest(ts, expr@, self.current as int, 6) == (PE {
                ok: true,
                expr: expr@,
                etok: no_tok(),
                i: self.current as int,
                errs: Seq::empty(),
            }));
            assert(emitted + Seq::<ErrorV>::empty() =~= emitted);
        }
        Ok(expr)
    }

    /// An assignment: a logical expression, optionally `=` and another
    /// assignment, grouping right to left.
    #[verifier::rlimit(60)]
    fn assignment(&mut self, reporter: &mut ErrorReporter) -> (r: Result<Expr, ParseError>)
        requires
            parser_wf(*old(self)),
        ensures
            parser_wf(*final(self)),
            pe_matches(
                p_assignment(old(self).tokens.deep_view(), old(self).current as int),
                r,
                *old(self),
                *final(self),
                old(reporter)@,
                final(reporter)@,
            ),
            old(self).current <= final(self).current,
            r is Ok ==> old(self).current < final(self).current,
        decreases old(self).tokens.deep_view().len() - old(self).current, 7int,
    {
        let ghost ts = self.tokens.deep_view();
        let ghost i0 = self.current as int;
        let ghost errs0 = reporter@;
        let expr = match self.logical(reporter) {
            Ok(e) => e,
            Err(pe) => {
                return Err(pe);
            },
        };
        let ghost r1 = p_level(ts, i0, 6);
        if self.check(TokenType::Equal) {
            let ghost cur_eq = self.current as int;
            let operator = self.advance();
            let right = match self.assignment(reporter) {
                Ok(e) => e,
                Err(pe) => {
                    proof {
                        assert(step_up(ts, i0, cur_eq + 1) == cur_eq + 1);
                        let rhs = p_assignment(ts, cur_eq + 1);
                        assert(reporter@ =~= old(reporter)@ + (r1.errs + rhs.errs));
                    }
                    return Err(pe);
                },
            };
            proof {
                assert(step_up(ts, i0, cur_eq + 1) == cur_eq + 1);
                let rhs = p_assignment(ts, cur_eq + 1);
                assert(reporter@ =~= old(reporter)@ + (r1.errs + rhs.errs));
            }
            Ok(Expr::Binary(Box::new(expr), operator, Box::new(right)))
        } else {
            Ok(expr)
        }
    }

    /// An expression: the lowest precedence level is assignment.
    #[verifier::rlimit(60)]
    fn expression(&mut self, reporter: &mut ErrorReporter) -> (r: Result<Expr, ParseError>)
        requires
            parser_wf(*old(self)),
        ensures
            parser_wf(*final(self)),
            pe_matches(
                p_expression(old(self).tokens.deep_view(), old(self).current as int),
                r,
                *old(self),
                *final(self),
                old(reporter)@,
                final(reporter)@,
            ),
            old(self).current <= final(self).current,
            r is Ok ==> old(self).current < final(self).current,
        decreases old(self).tokens.deep_view().len() - old(self).current, 8int,
    {
        self.assignment(reporter)
    }

    /// One-or-more statement separators: semicolon, newline, or the end
    /// of the input.
    #[verifier::rlimit(60)]
    #[verifier::loop_isolation(false)]
    fn end_of_stmt(&mut self, reporter: &mut ErrorReporter) -> (r: Result<(), ParseError>)
        requires
            parser_wf(*old(self)),
        ensures
            parser_wf(*final(self)),
            final(self).tokens == old(self).tokens,
            ({
                let s = p_end_of_stmt(old(self).tokens.deep_view(), old(self).current as int);
                &&& final(self).current as int == s.i
                &&& final(reporter)@ == old(reporter)@ + s.errs
                &&& match r {
                    Ok(u) => s.ok,
                    Err(pe) => !s.ok && pe@ == s.etok,
                }
            }),
            old(self).current <= final(self).current,
    {
        let ghost ts = self.tokens.deep_view();
        let ghost i0 = self.current as int;
        if self.is_at_end() {
            proof {
                assert(old(reporter)@ + Seq::<ErrorV>::empty() =~= old(reporter)@);
            }
            return Ok(());
        }
        if self.check(TokenType::SemiColon) || self.check(TokenType::NewLine) {
            while self.check(TokenType::SemiColon) || self.check(TokenType::NewLine)
                invariant
                    parser_wf(*self),
                    self.tokens == old(self).tokens,
                    self.tokens.deep_view() == ts,
                    i0 <= self.current as int,
                    sep_end(ts, i0) == sep_end(ts, self.current as int),
                decreases ts.len() - self.current,
            {
                self.advance();
            }
            proof {
                assert(self.current as int == sep_end(ts, i0));
                assert(old(reporter)@ + Seq::<ErrorV>::empty() =~= old(reporter)@);
            }
            Ok(())
        } else {
            let t = self.peek();
            let e = self.error(t, "Expected ';', EOL, or EOF.", reporter);
            proof {
                assert(reporter@ =~= old(reporter)@ + p_end_of_stmt(ts, i0).errs);
            }
            Err(e)
        }
    }

    /// A `print` statement's body: the expression after the keyword,
    /// closed by statement separators.
    #[verifier::rlimit(60)]
    fn print_stmt(&mut self, reporter: &mut ErrorReporter) -> (r: Result<Stmt, ParseError>)
        requires
            parser_wf(*old(self)),
        ensures
            parser_wf(*final(self)),
            ps_matches(
                p_stmt_tail(old(self).tokens.deep_view(), old(self).current as int, true),
                r,
                *old(self),
                *final(self),
                old(reporter)@,
                final(reporter)@,
            ),
            old(self).current <= final(self).current,
            r is Ok ==> old(self).current < final(self).current,
    {
        let ghost ts = self.tokens.deep_view();
        let ghost i0 = self.current as int;
        let expr = match self.expression(reporter) {
            Ok(e) => e,
            Err(pe) => {
                return Err(pe);
            },
        };
        match self.end_of_stmt(reporter) {
            Ok(u) => {
                proof {
                    let re = p_expression(ts, i0);
                    let e = p_end_of_stmt(ts, re.i);
                    assert(reporter@ =~= old(reporter)@ + (re.errs + e.errs));
                }
                Ok(Stmt::Print(expr))
            },
            Err(pe) => {
                proof {
                    let re = p_expression(ts, i0);
                    let e = p_end_of_stmt(ts, re.i);
                    assert(reporter@ =~= old(reporter)@ + (re.errs + e.errs));
                }
                Err(pe)
            },
        }
    }

    /// A bare expression statement, closed by statement separators.
    #[verifier::rlimit(60)]
    fn expr_stmt(&mut self, reporter: &mut ErrorReporter) -> (r: Result<Stmt, ParseError>)
        requires
            parser_wf(*old(self)),
        ensures
            parser_wf(*final(self)),
            ps_matches(
                p_stmt_tail(old(self).tokens.deep_view(), old(self).current as int, false),
                r,
                *old(self),
                *final(self),
                old(reporter)@,
                final(reporter)@,
            ),
            old(self).current <= final(self).current,
            r is Ok ==> old(self).current < final(self).current,
    {
        let ghost ts = self.tokens.deep_view();
        let ghost i0 = self.current as int;
        let expr = match self.expression(reporter) {
            Ok(e) => e,
            Err(pe) => {
                return Err(pe);
            },
        };
        match self.end_of_stmt(reporter) {
            Ok(u) => {
                proof {
                    let re = p_expression(ts, i0);
                    let e = p_end_of_stmt(ts, re.i);
                    assert(reporter@ =~= old(reporter)@ + (re.errs + e.errs));
                }
                Ok(Stmt::Expression(expr))
            },
            Err(pe) => {
                proof {
                    let re = p_expression(ts, i0);
                    let e = p_end_of_stmt(ts, re.i);
                    assert(reporter@ =~= old(reporter)@ + (re.errs + e.errs));
                }
                Err(pe)
            },
        }
    }

    /// One statement: `print` expression, or a bare expression.
    #[verifier::rlimit(60)]
    fn statement(&mut self, reporter: &mut ErrorReporter) -> (r: Result<Stmt, ParseError>)
        requires
            parser_wf(*old(self)),
        ensures
            parser_wf(*final(self)),
            ps_matches(
                p_statement(old(self).tokens.deep_view(), old(self).current as int),
                r,
                *old(self),
                *final(self),
                old(reporter)@,
                final(reporter)@,
            ),
            old(self).current <= final(self).current,
            r is Ok ==> old(self).current < final(self).current,
    {
        if self.check(TokenType::Print) {
            self.advance();
            self.print_stmt(reporter)
        } else {
            self.expr_stmt(reporter)
        }
    }

    /// Panic-mode recovery: discard tokens until just after a statement
    /// separator, before a statement keyword, or the end of the input.
    #[verifier::rlimit(60)]
    #[verifier::loop_isolation(false)]
    fn synchronize(&mut self)
        requires
            parser_wf(*old(self)),
        ensures
            parser_wf(*final(self)),
            final(self).tokens == old(self).tokens,
            final(self).current as int == p_synchronize(
                old(self).tokens.deep_view(),
                old(self).current as int,
            ),
            old(self).current <= final(self).current,
            !at_end(old(self).tokens.deep_view(), old(self).current as int) ==> old(self).current
                < final(self).current,
            at_end(old(self).tokens.deep_view(), old(self).current as int) ==> final(self).current
                == old(self).current,
    {
        let ghost ts = self.tokens.deep_view();
        let ghost i0 = self.current as int;
        if self.is_at_end() {
            return;
        }
        self.advance();
        let ghost j0 = self.current as int;
        while !self.is_at_end()
            invariant
                parser_wf(*self),
                self.tokens == old(self).tokens,
                self.tokens.deep_view() == ts,
                1 <= self.current,
                j0 <= self.current as int,
                sync_from(ts, j0) == sync_from(ts, self.current as int),
            decreases ts.len() - self.current,
        {
            let prev = self.previous();
            if prev.token_type == TokenType::SemiColon || prev.token_type == TokenType::NewLine {
                return;
            }
            let t = self.peek();
            if t.token_type == TokenType::Class || t.token_type == TokenType::Fun || t.token_type
                == TokenType::Var || t.token_type == TokenType::For || t.token_type == TokenType::If
                || t.token_type == TokenType::While || t.token_type == TokenType::Print
                || t.token_type == TokenType::Return {
                return;
            }
            self.advance();
        }
    }

    /// The whole program: statements until the end of the stream, with
    /// panic-mode recovery after a failed statement.
    #[verifier::rlimit(60)]
    #[verifier::loop_isolation(false)]
    fn program(&mut self, reporter: &mut ErrorReporter) -> (r: Result<Vec<Stmt>, ParseError>)
        requires
            parser_wf(*old(self)),
        ensures
            parser_wf(*final(self)),
            final(self).tokens == old(self).tokens,
            r is Ok,
            ({
                let p = p_program(old(self).tokens.deep_view(), old(self).current as int);
                &&& r matches Ok(stmts) ==> stmts.deep_view() == p.stmts
                &&& final(reporter)@ == old(reporter)@ + p.errs
            }),
    {
        let ghost ts = self.tokens.deep_view();
        let ghost i0 = self.current as int;
        let ghost errs0 = reporter@;
        let mut stmts: Vec<Stmt> = Vec::new();
        let ghost mut emitted = Seq::<ErrorV>::empty();
        proof {
            assert(reporter@ =~= errs0 + emitted);
            assert(stmts.deep_view() =~= Seq::<StmtV>::empty());
            assert(p_program(ts, i0).stmts =~= stmts.deep_view() + p_program(
                ts,
                self.current as int,
            ).stmts);
            assert(p_program(ts, i0).errs =~= emitted + p_program(ts, self.current as int).errs);
        }
        while !self.is_at_end()
            invariant
                parser_wf(*self),
                self.tokens == old(self).tokens,
                self.tokens.deep_view() == ts,
                i0 <= self.current as int,
                reporter@ == errs0 + emitted,
                p_program(ts, i0).stmts == stmts.deep_view() + p_program(
                    ts,
                    self.current as int,
                ).stmts,
                p_program(ts, i0).errs == emitted + p_program(ts, self.current as int).errs,
            decreases ts.len() - self.current,
        {
            let ghost cur0 = self.current as int;
            let ghost em0 = emitted;
            let ghost st0 = stmts.deep_view();
            match self.statement(reporter) {
                Ok(stmt) => {
                    let ghost sv = stmt@;
                    stmts.push(stmt);
                    proof {
                        let rs = p_statement(ts, cur0);
                        emitted = em0 + rs.errs;
                        assert(reporter@ =~= errs0 + emitted);
                        assert(step_up(ts, cur0, rs.i) == rs.i);
                        assert(stmts.deep_view() =~= st0.push(sv));
                        assert(p_program(ts, cur0).stmts =~= seq![rs.stmt] + p_program(
                            ts,
                            rs.i,
                        ).stmts);
                        assert(p_program(ts, i0).stmts =~= stmts.deep_view() + p_program(
                            ts,
                            self.current as int,
                        ).stmts);
                        assert(p_program(ts, i0).errs =~= emitted + p_program(
                            ts,
                            self.current as int,
                        ).errs);
                    }
                },
                Err(e) => {
                    let ghost ri = self.current as int;
                    self.synchronize();
                    proof {
                        let rs = p_statement(ts, cur0);
                        emitted = em0 + rs.errs;
                        assert(reporter@ =~= errs0 + emitted);
                        let si = p_synchronize(ts, ri);
                        assert(si == self.current as int);
                        if si > cur0 {
                            assert(step_up(ts, cur0, si) == si);
                        } else {
                            assert(si == cur0 && ri == cur0);
                            assert(at_end(ts, si));
                            assert(p_program(ts, si).stmts =~= Seq::<StmtV>::empty());
                            assert(p_program(ts, si).errs =~= Seq::<ErrorV>::empty());
                            assert(p_program(ts, step_up(ts, cur0, si)).stmts
                                =~= Seq::<StmtV>::empty());
                            assert(p_program(ts, step_up(ts, cur0, si)).errs
                                =~= Seq::<ErrorV>::empty());
                        }
                        assert(p_program(ts, i0).stmts =~= stmts.deep_view() + p_program(
                            ts,
                            self.current as int,
                        ).stmts);
                        assert(p_program(ts, i0).errs =~= emitted + p_program(
                            ts,
                            self.current as int,
                        ).errs);
                    }
                },
            }
        }
        proof {
            assert(p_program(ts, self.current as int).stmts =~= Seq::<StmtV>::empty());
            assert(p_program(ts, self.current as int).errs =~= Seq::<ErrorV>::empty());
            assert(stmts.deep_view() + Seq::<StmtV>::empty() =~= stmts.deep_view());
            assert(emitted + Seq::<ErrorV>::empty() =~= emitted);
        }
        Ok(stmts)
    }

    /// Parses the token stream into a statement sequence, reporting every
    /// syntax diagnostic and recovering at statement boundaries.
    #[verifier::rlimit(60)]
    pub fn parse(&mut self, reporter: &mut ErrorReporter) -> (r: Result<Vec<Stmt>, ParseError>)
        requires
            parser_wf(*old(self)),
        ensures
            parser_wf(*final(self)),
            final(self).tokens == old(self).tokens,
            r is Ok,
            ({
                let p = p_program(old(self).tokens.deep_view(), old(self).current as int);
                &&& r matches Ok(stmts) ==> stmts.deep_view() == p.stmts
                &&& final(reporter)@ == old(reporter)@ + p.errs
            }),
    {
        self.program(reporter)
    }
}

/// Law: one syntax error is bounded to one statement.  When a statement
/// fails to parse, the program's statements are exactly those parsed
/// from the recovery point on, so later, independently valid statements
/// still parse.
pub proof fn lemma_recovery_bounds_error(ts: Seq<TokenV>, i: int)
    requires
        0 <= i < ts.len(),
        !at_end(ts, i),
        !p_statement(ts, i).ok,
    ensures
        p_program(ts, i).stmts == p_program(
            ts,
            step_up(ts, i, p_synchronize(ts, p_statement(ts, i).i)),
        ).stmts,
{
}

} // verus!
