use vstd::prelude::*;

use crate::environment::{env_get, env_set, env_wf, undefined_text, EnvV, Environment};
use crate::error::{Error, ErrorV};
use crate::error_reporter::ErrorReporter;
use crate::error_stage::ErrorStage;
use crate::eval_result::{value_text, value_wf, EvalResult, ValueV};
use crate::number::{
    fits_i64, num_add, num_div, num_eq_val, num_from_lexeme, num_lt, num_mul, num_neg, num_sub,
    num_text, num_wf, spec_add, spec_div, spec_eq_val, spec_lt, spec_mul, spec_num_from_lexeme,
    spec_sub, Num,
};
use crate::text::{
    is_suffix_of, lex_lt, push_char, repeat_str, repeat_text, str_ends_with, str_lt, str_take,
    unescape_dq, unescape_quotes,
};
use crate::statement::{Stmt, StmtV};
use crate::token::{Token, TokenV};
use crate::token_type::TokenType;
use vstd::string::{StrSliceExecFns, StringExecFns};

verus! {

/// The mathematical content of an expression tree.
#[verifier::ext_equal]
pub ghost enum ExprV {
    Binary(Box<ExprV>, TokenV, Box<ExprV>),
    Grouping(Box<ExprV>),
    Literal(TokenV),
    Unary(TokenV, Box<ExprV>),
}

/// An expression tree.  Each composite node exclusively owns its children;
/// trees are acyclic and immutable after construction.
pub enum Expr {
    Binary(Box<Expr>, Token, Box<Expr>),
    Grouping(Box<Expr>),
    Literal(Token),
    Unary(Token, Box<Expr>),
}

impl View for Expr {
    type V = ExprV;

    open spec fn view(&self) -> ExprV
        decreases self,
    {
        match self {
            Expr::Binary(l, op, r) => ExprV::Binary(Box::new((**l)@), op@, Box::new((**r)@)),
            Expr::Grouping(e) => ExprV::Grouping(Box::new((**e)@)),
            Expr::Literal(t) => ExprV::Literal(t@),
            Expr::Unary(op, e) => ExprV::Unary(op@, Box::new((**e)@)),
        }
    }
}

impl DeepView for Expr {
    type V = ExprV;

    open spec fn deep_view(&self) -> ExprV {
        self.view()
    }
}

/// The source line an expression is reported at: its operator's line, or
/// the literal's own line, found through groupings.
pub open spec fn spec_line(e: ExprV) -> int
    decreases e,
{
    match e {
        ExprV::Binary(_, op, _) => op.line,
        ExprV::Grouping(inner) => spec_line(*inner),
        ExprV::Literal(t) => t.line,
        ExprV::Unary(op, _) => op.line,
    }
}

/// The parenthesized prefix rendering of an expression:
/// `(op left right)` for binary nodes, `(group inner)` for groupings,
/// `(op operand)` for unary nodes, and the bare lexeme for literals.
pub open spec fn spec_format_ast(e: ExprV) -> Seq<char>
    decreases e,
{
    match e {
        ExprV::Binary(l, op, r) => seq!['('] + op.lexeme + seq![' '] + spec_format_ast(*l)
            + seq![' '] + spec_format_ast(*r) + seq![')'],
        ExprV::Grouping(inner) => "(group "@ + spec_format_ast(*inner) + seq![')'],
        ExprV::Literal(t) => t.lexeme,
        ExprV::Unary(op, inner) => seq!['('] + op.lexeme + seq![' '] + spec_format_ast(*inner)
            + seq![')'],
    }
}

impl Expr {
    /// The source line this expression is reported at.
    pub fn line(&self) -> (r: i64)
        ensures
            r as int == spec_line(self@),
        decreases self,
    {
        match self {
            Expr::Binary(_, op, _) => op.line,
            Expr::Grouping(e) => e.line(),
            Expr::Literal(t) => t.line,
            Expr::Unary(op, _) => op.line,
        }
    }
}

/// A stand-in diagnostic for results that carry none.
pub open spec fn no_err() -> ErrorV {
    ErrorV { line: 0, location: Seq::empty(), message: Seq::empty(), stage: ErrorStage::Runtime }
}

/// A runtime diagnostic with an empty location.
pub open spec fn rt_error(line: int, msg: Seq<char>) -> ErrorV {
    ErrorV { line, location: Seq::empty(), message: msg, stage: ErrorStage::Runtime }
}

/// The outcome of evaluating one expression: the environment after it,
/// the value (or the diagnostic that stopped it), and every diagnostic
/// recorded meanwhile.
#[verifier::ext_equal]
pub ghost struct EvOut {
    pub env: EnvV,
    pub ok: bool,
    pub val: ValueV,
    pub err: ErrorV,
    pub errs: Seq<ErrorV>,
}

/// A successful outcome, after recording `pre`.
pub open spec fn ev_ok(env: EnvV, v: ValueV, pre: Seq<ErrorV>) -> EvOut {
    EvOut { env, ok: true, val: v, err: no_err(), errs: pre }
}

/// A failed outcome: one new runtime diagnostic after `pre`.
pub open spec fn ev_err(env: EnvV, line: int, msg: Seq<char>, pre: Seq<ErrorV>) -> EvOut {
    let e = rt_error(line, msg);
    EvOut { env, ok: false, val: ValueV::Null, err: e, errs: pre + seq![e] }
}

/// Truthiness: zero, the empty string, and null are falsy; every other
/// value is truthy.
pub open spec fn spec_truthy(v: ValueV) -> bool {
    match v {
        ValueV::Number { n, d } => n != 0,
        ValueV::Str(s) => s.len() > 0,
        _ => false,
    }
}

/// Truth encoded as a number: one for true, zero for false.
pub open spec fn bool_num(b: bool) -> ValueV {
    ValueV::Number { n: if b { 1 } else { 0 }, d: 1 }
}

/// The machine rational denoted by a number value's parts.
pub open spec fn vnum(n: int, d: int) -> Num {
    Num { n: n as i64, d: d as i64 }
}

/// The outcome of one binary operator application.
#[verifier::ext_equal]
pub ghost struct OpOut {
    pub ok: bool,
    pub val: ValueV,
    pub err: ErrorV,
}

pub open spec fn op_ok(v: ValueV) -> OpOut {
    OpOut { ok: true, val: v, err: no_err() }
}

pub open spec fn op_err(line: int, msg: Seq<char>) -> OpOut {
    OpOut { ok: false, val: ValueV::Null, err: rt_error(line, msg) }
}

/// An arithmetic result: a value, or a diagnostic when it cannot be held
/// exactly in the number representation.
pub open spec fn num_op_out(line: int, r: Option<Num>) -> OpOut {
    match r {
        Some(c) => op_ok(ValueV::Number { n: c.n as int, d: c.d as int }),
        None => op_err(line, "Numeric overflow."@),
    }
}

/// The characters of a string literal's lexeme: the text between the
/// quotes, with doubled quotes collapsed.
pub open spec fn string_content(lex: Seq<char>) -> Seq<char> {
    if lex.len() >= 2 {
        unescape_dq(lex.subrange(1, lex.len() - 1))
    } else {
        Seq::empty()
    }
}

/// One binary operator applied to two values, dispatched on the pair of
/// value kinds exactly as the evaluator's rules say.
pub open spec fn eval_binop(op: TokenV, a: ValueV, b: ValueV) -> OpOut {
    match (a, b) {
        (ValueV::Number { n: an, d: ad }, ValueV::Number { n: bn, d: bd }) => {
            let x = vnum(an, ad);
            let y = vnum(bn, bd);
            if op.kind == TokenType::Plus {
                num_op_out(op.line, spec_add(x, y))
            } else if op.kind == TokenType::Minus {
                num_op_out(op.line, spec_sub(x, y))
            } else if op.kind == TokenType::Star {
                num_op_out(op.line, spec_mul(x, y))
            } else if op.kind == TokenType::Slash {
                if y.n == 0 {
                    op_err(op.line, "Division by zero."@)
                } else {
                    num_op_out(op.line, spec_div(x, y))
                }
            } else if op.kind == TokenType::Greater {
                op_ok(bool_num(spec_lt(y, x)))
            } else if op.kind == TokenType::GreaterEqual {
                op_ok(bool_num(!spec_lt(x, y)))
            } else if op.kind == TokenType::Less {
                op_ok(bool_num(spec_lt(x, y)))
            } else if op.kind == TokenType::LessEqual {
                op_ok(bool_num(!spec_lt(y, x)))
            } else if op.kind == TokenType::BangEqual {
                op_ok(bool_num(!spec_eq_val(x, y)))
            } else if op.kind == TokenType::EqualEqual {
                op_ok(bool_num(spec_eq_val(x, y)))
            } else {
                op_err(op.line, "Invalid number/number operation."@)
            }
        },
        (ValueV::Str(l), ValueV::Str(r)) => {
            if op.kind == TokenType::Plus {
                op_ok(ValueV::Str(l + r))
            } else if op.kind == TokenType::Minus {
                if is_suffix_of(r, l) {
                    op_ok(ValueV::Str(l.subrange(0, l.len() - r.len())))
                } else {
                    op_ok(ValueV::Str(l))
                }
            } else if op.kind == TokenType::Greater {
                op_ok(bool_num(lex_lt(r, l)))
            } else if op.kind == TokenType::GreaterEqual {
                op_ok(bool_num(!lex_lt(l, r)))
            } else if op.kind == TokenType::Less {
                op_ok(bool_num(lex_lt(l, r)))
            } else if op.kind == TokenType::LessEqual {
                op_ok(bool_num(!lex_lt(r, l)))
            } else if op.kind == TokenType::BangEqual {
                op_ok(bool_num(l != r))
            } else if op.kind == TokenType::EqualEqual {
                op_ok(bool_num(l == r))
            } else {
                op_err(op.line, "Invalid string/string operation."@)
            }
        },
        (ValueV::Str(l), ValueV::Number { n: bn, d: bd }) => {
            let bt = num_text(bn, bd);
            if op.kind == TokenType::Plus {
                op_ok(ValueV::Str(l + bt))
            } else if op.kind == TokenType::Minus {
                if is_suffix_of(bt, l) {
                    op_ok(ValueV::Str(l.subrange(0, l.len() - bt.len())))
                } else {
                    op_ok(ValueV::Str(l))
                }
            } else if op.kind == TokenType::Star {
                let f = bn / bd;
                let k = if f > 0 {
                    f
                } else {
                    0
                };
                op_ok(ValueV::Str(repeat_text(l, k as nat)))
            } else if op.kind == TokenType::Slash {
                let c = (bn + bd - 1) / bd;
                if c > 0 {
                    op_ok(ValueV::Str(l.subrange(0, l.len() as int / c)))
                } else if c < 0 {
                    op_ok(ValueV::Str(Seq::empty()))
                } else {
                    op_err(op.line, "Invalid string/number operation."@)
                }
            } else {
                op_err(op.line, "Invalid string/number operation."@)
            }
        },
        (ValueV::Number { n: an, d: ad }, ValueV::Str(r)) => {
            if op.kind == TokenType::Plus {
                op_ok(ValueV::Str(num_text(an, ad) + r))
            } else {
                op_err(op.line, "Invalid number/string operation."@)
            }
        },
        _ => op_err(op.line, "Unknown operation type."@),
    }
}

/// The evaluation of one expression against an environment: post-order,
/// with short-circuiting `and`/`or`, environment-mutating assignment to a
/// bare identifier, and a runtime diagnostic on the first failure.
pub open spec fn eval_expr(env: EnvV, e: ExprV) -> EvOut
    decreases e,
{
    match e {
        ExprV::Literal(t) => {
            if t.kind == TokenType::Number {
                match spec_num_from_lexeme(t.lexeme) {
                    Some(x) => ev_ok(
                        env,
                        ValueV::Number { n: x.n as int, d: x.d as int },
                        Seq::empty(),
                    ),
                    None => ev_err(env, t.line, "Invalid number literal."@, Seq::empty()),
                }
            } else if t.kind == TokenType::String {
                ev_ok(env, ValueV::Str(string_content(t.lexeme)), Seq::empty())
            } else if t.kind == TokenType::Null {
                ev_ok(env, ValueV::Null, Seq::empty())
            } else if t.kind == TokenType::True {
                ev_ok(env, bool_num(true), Seq::empty())
            } else if t.kind == TokenType::False {
                ev_ok(env, bool_num(false), Seq::empty())
            } else if t.kind == TokenType::Identifier {
                match env_get(env, t.lexeme) {
                    Some(v) => ev_ok(env, v, Seq::empty()),
                    None => ev_err(env, t.line, undefined_text(t.lexeme), Seq::empty()),
                }
            } else {
                ev_err(env, t.line, "Syntax error."@, Seq::empty())
            }
        },
        ExprV::Grouping(inner) => eval_expr(env, *inner),
        ExprV::Unary(op, inner) => {
            let o = eval_expr(env, *inner);
            if !o.ok {
                o
            } else {
                match o.val {
                    ValueV::Number { n, d } => {
                        if op.kind == TokenType::Minus {
                            if fits_i64(-n) {
                                ev_ok(o.env, ValueV::Number { n: -n, d }, o.errs)
                            } else {
                                ev_err(o.env, op.line, "Numeric overflow."@, o.errs)
                            }
                        } else if op.kind == TokenType::Not {
                            ev_ok(o.env, bool_num(!spec_truthy(o.val)), o.errs)
                        } else {
                            ev_err(o.env, op.line, "Unknown operator: "@ + op.lexeme, o.errs)
                        }
                    },
                    _ => ev_err(
                        o.env,
                        op.line,
                        "Expression type not allowed: "@ + value_text(o.val),
                        o.errs,
                    ),
                }
            }
        },
        ExprV::Binary(l, op, r) => {
            if op.kind == TokenType::Equal {
                let target_ok = match *l {
                    ExprV::Literal(lt) => lt.kind == TokenType::Identifier,
                    _ => false,
                };
                if target_ok {
                    let name = (match *l {
                        ExprV::Literal(lt) => lt,
                        _ => no_ident(),
                    }).lexeme;
                    let o = eval_expr(env, *r);
                    if o.ok {
                        EvOut {
                            env: env_set(o.env, name, o.val),
                            ok: true,
                            val: o.val,
                            err: no_err(),
                            errs: o.errs,
                        }
                    } else {
                        o
                    }
                } else {
                    ev_err(
                        env,
                        op.line,
                        "Invalid assignment target: "@ + spec_format_ast(*l),
                        Seq::empty(),
                    )
                }
            } else {
                let lo = eval_expr(env, *l);
                if !lo.ok {
                    lo
                } else if op.kind == TokenType::And {
                    if !spec_truthy(lo.val) {
                        ev_ok(lo.env, bool_num(false), lo.errs)
                    } else {
                        let ro = eval_expr(lo.env, *r);
                        if ro.ok {
                            ev_ok(ro.env, bool_num(spec_truthy(ro.val)), lo.errs + ro.errs)
                        } else {
                            EvOut {
                                env: ro.env,
                                ok: false,
                                val: ValueV::Null,
                                err: ro.err,
                                errs: lo.errs + ro.errs,
                            }
                        }
                    }
                } else if op.kind == TokenType::Or {
                    if spec_truthy(lo.val) {
                        ev_ok(lo.env, bool_num(true), lo.errs)
                    } else {
                        let ro = eval_expr(lo.env, *r);
                        if ro.ok {
                            ev_ok(ro.env, bool_num(spec_truthy(ro.val)), lo.errs + ro.errs)
                        } else {
                            EvOut {
                                env: ro.env,
                                ok: false,
                                val: ValueV::Null,
                                err: ro.err,
                                errs: lo.errs + ro.errs,
                            }
                        }
                    }
                } else {
                    let ro = eval_expr(lo.env, *r);
                    if !ro.ok {
                        EvOut {
                            env: ro.env,
                            ok: false,
                            val: ValueV::Null,
                            err: ro.err,
                            errs: lo.errs + ro.errs,
                        }
                    } else {
                        let b = eval_binop(op, lo.val, ro.val);
                        if b.ok {
                            ev_ok(ro.env, b.val, lo.errs + ro.errs)
                        } else {
                            EvOut {
                                env: ro.env,
                                ok: false,
                                val: ValueV::Null,
                                err: b.err,
                                errs: lo.errs + ro.errs + seq![b.err],
                            }
                        }
                    }
                }
            }
        },
    }
}

/// A stand-in token used only to keep `eval_expr` total.
pub open spec fn no_ident() -> TokenV {
    TokenV { kind: TokenType::Identifier, lexeme: Seq::empty(), line: 0 }
}

/// Renders an expression tree in parenthesized prefix form.
pub fn format_ast(expr: &Expr) -> (r: String)
    ensures
        r@ == spec_format_ast(expr@),
    decreases expr,
{
    match expr {
        Expr::Binary(l, op, r) => {
            let mut s = String::from_str("(");
            s.append(op.lexeme.as_str());
            push_char(&mut s, ' ');
            let ls = format_ast(l);
            s.append(ls.as_str());
            push_char(&mut s, ' ');
            let rs = format_ast(r);
            s.append(rs.as_str());
            push_char(&mut s, ')');
            proof {
                reveal_strlit("(");
                assert(s@ =~= spec_format_ast(expr@));
            }
            s
        },
        Expr::Grouping(e) => {
            let mut s = String::from_str("(group ");
            let es = format_ast(e);
            s.append(es.as_str());
            push_char(&mut s, ')');
            proof {
                assert(s@ =~= spec_format_ast(expr@));
            }
            s
        },
        Expr::Literal(t) => t.lexeme.clone(),
        Expr::Unary(op, e) => {
            let mut s = String::from_str("(");
            s.append(op.lexeme.as_str());
            push_char(&mut s, ' ');
            let es = format_ast(e);
            s.append(es.as_str());
            push_char(&mut s, ')');
            proof {
                reveal_strlit("(");
                assert(s@ =~= spec_format_ast(expr@));
            }
            s
        },
    }
}

/// Whether a value is truthy.
fn truthy_of(v: &EvalResult) -> (r: bool)
    ensures
        r == spec_truthy(v@),
{
    match v {
        EvalResult::Number(x) => x.n != 0,
        EvalResult::Str(s) => s.as_str().unicode_len() > 0,
        _ => false,
    }
}

/// Truthiness, the coercion used by the logical operators: zero, the
/// empty string, and null are falsy; every other value is truthy.
pub fn is_truthy(value: EvalResult) -> (r: bool)
    requires
        !(value@ is Error),
    ensures
        r == spec_truthy(value@),
{
    truthy_of(&value)
}

/// The negation of truthiness.
pub fn is_falsy(value: EvalResult) -> (r: bool)
    requires
        !(value@ is Error),
    ensures
        r == !spec_truthy(value@),
{
    !is_truthy(value)
}

/// Applies one binary operator to two values, as `eval_binop` says; a
/// failure returns the diagnostic message for the caller to report at
/// the operator's line.
#[verifier::rlimit(100)]
#[verifier::spinoff_prover]
fn eval_binop_exec(op: &Token, a: &EvalResult, b: &EvalResult) -> (r: Result<EvalResult, String>)
    requires
        value_wf(a@),
        value_wf(b@),
    ensures
        ({
            let ob = eval_binop(op@, a@, b@);
            match r {
                Ok(v) => ob.ok && v@ == ob.val && value_wf(v@),
                Err(m) => !ob.ok && ob.err == rt_error(op@.line, m@),
            }
        }),
{
    match (a, b) {
        (EvalResult::Number(x), EvalResult::Number(y)) => {
            if op.token_type == TokenType::Plus {
                match num_add(*x, *y) {
                    Some(c) => Ok(EvalResult::Number(c)),
                    None => Err(String::from_str("Numeric overflow.")),
                }
            } else if op.token_type == TokenType::Minus {
                match num_sub(*x, *y) {
                    Some(c) => Ok(EvalResult::Number(c)),
                    None => Err(String::from_str("Numeric overflow.")),
                }
            } else if op.token_type == TokenType::Star {
                match num_mul(*x, *y) {
                    Some(c) => Ok(EvalResult::Number(c)),
                    None => Err(String::from_str("Numeric overflow.")),
                }
            } else if op.token_type == TokenType::Slash {
                if y.is_zero() {
                    Err(String::from_str("Division by zero."))
                } else {
                    match num_div(*x, *y) {
                        Some(c) => Ok(EvalResult::Number(c)),
                        None => Err(String::from_str("Numeric overflow.")),
                    }
                }
            } else if op.token_type == TokenType::Greater {
                Ok(EvalResult::Number(Num::from_int(if num_lt(*y, *x) { 1 } else { 0 })))
            } else if op.token_type == TokenType::GreaterEqual {
                Ok(EvalResult::Number(Num::from_int(if num_lt(*x, *y) { 0 } else { 1 })))
            } else if op.token_type == TokenType::Less {
                Ok(EvalResult::Number(Num::from_int(if num_lt(*x, *y) { 1 } else { 0 })))
            } else if op.token_type == TokenType::LessEqual {
                Ok(EvalResult::Number(Num::from_int(if num_lt(*y, *x) { 0 } else { 1 })))
            } else if op.token_type == TokenType::BangEqual {
                Ok(EvalResult::Number(Num::from_int(if num_eq_val(*x, *y) { 0 } else { 1 })))
            } else if op.token_type == TokenType::EqualEqual {
                Ok(EvalResult::Number(Num::from_int(if num_eq_val(*x, *y) { 1 } else { 0 })))
            } else {
                Err(String::from_str("Invalid number/number operation."))
            }
        },
        (EvalResult::Str(l), EvalResult::Str(rs)) => {
            if op.token_type == TokenType::Plus {
                let mut out = l.clone();
                out.append(rs.as_str());
                Ok(EvalResult::Str(out))
            } else if op.token_type == TokenType::Minus {
                if str_ends_with(l.as_str(), rs.as_str()) {
                    let ll = l.as_str().unicode_len();
                    let rl = rs.as_str().unicode_len();
                    Ok(EvalResult::Str(str_take(l.as_str(), ll - rl)))
                } else {
                    Ok(EvalResult::Str(l.clone()))
                }
            } else if op.token_type == TokenType::Greater {
                Ok(EvalResult::Number(Num::from_int(if str_lt(rs.as_str(), l.as_str()) { 1 } else { 0 })))
            } else if op.token_type == TokenType::GreaterEqual {
                Ok(EvalResult::Number(Num::from_int(if str_lt(l.as_str(), rs.as_str()) { 0 } else { 1 })))
            } else if op.token_type == TokenType::Less {
                Ok(EvalResult::Number(Num::from_int(if str_lt(l.as_str(), rs.as_str()) { 1 } else { 0 })))
            } else if op.token_type == TokenType::LessEqual {
                Ok(EvalResult::Number(Num::from_int(if str_lt(rs.as_str(), l.as_str()) { 0 } else { 1 })))
            } else if op.token_type == TokenType::BangEqual {
                Ok(EvalResult::Number(Num::from_int(if crate::text::str_eq(l.as_str(), rs.as_str()) { 0 } else { 1 })))
            } else if op.token_type == TokenType::EqualEqual {
                Ok(EvalResult::Number(Num::from_int(if crate::text::str_eq(l.as_str(), rs.as_str()) { 1 } else { 0 })))
            } else {
                Err(String::from_str("Invalid string/string operation."))
            }
        },
        (EvalResult::Str(l), EvalResult::Number(y)) => {
            if op.token_type == TokenType::Plus {
                let mut out = l.clone();
                let yt = y.to_text();
                out.append(yt.as_str());
                Ok(EvalResult::Str(out))
            } else if op.token_type == TokenType::Minus {
                let yt = y.to_text();
                if str_ends_with(l.as_str(), yt.as_str()) {
                    let ll = l.as_str().unicode_len();
                    let rl = yt.as_str().unicode_len();
                    Ok(EvalResult::Str(str_take(l.as_str(), ll - rl)))
                } else {
                    Ok(EvalResult::Str(l.clone()))
                }
            } else if op.token_type == TokenType::Star {
                proof {
                    crate::number::lemma_ediv_sign(y.n as int, y.d as int);
                }
                let count: u64 = if y.n <= 0 {
                    0
                } else {
                    ((y.n as u128) / (y.d as u128)) as u64
                };
                Ok(EvalResult::Str(repeat_str(l.as_str(), count)))
            } else if op.token_type == TokenType::Slash {
                proof {
                    crate::number::lemma_ediv_sign(
                        y.n as int + y.d as int - 1,
                        y.d as int,
                    );
                }
                if y.n >= 1 {
                    let numer: u128 = (y.n as u128) + (y.d as u128) - 1;
                    let c: u128 = numer / (y.d as u128);
                    let ll = l.as_str().unicode_len();
                    proof {
                        crate::number::lemma_ediv_sign(ll as int, c as int);
                    }
                    let k: usize = ((ll as u128) / c) as usize;
                    Ok(EvalResult::Str(str_take(l.as_str(), k)))
                } else if (y.n as i128) + (y.d as i128) <= 0 {
                    Ok(EvalResult::Str(String::new()))
                } else {
                    Err(String::from_str("Invalid string/number operation."))
                }
            } else {
                Err(String::from_str("Invalid string/number operation."))
            }
        },
        (EvalResult::Number(x), EvalResult::Str(rs)) => {
            if op.token_type == TokenType::Plus {
                let mut out = x.to_text();
                out.append(rs.as_str());
                Ok(EvalResult::Str(out))
            } else {
                Err(String::from_str("Invalid number/string operation."))
            }
        },
        _ => Err(String::from_str("Unknown operation type.")),
    }
}

/// Evaluates one expression tree against the environment, exactly as
/// `eval_expr` says: the environment is updated by assignments, the
/// first runtime failure is recorded and returned, and no later
/// subexpression is evaluated after it.
#[verifier::rlimit(100)]
#[verifier::spinoff_prover]
pub fn eval_ast(environment: &mut Environment, expr: &Expr, reporter: &mut ErrorReporter) -> (r:
    Result<EvalResult, Error>)
    requires
        env_wf(old(environment)@),
    ensures
        ({
            let o = eval_expr(old(environment)@, expr@);
            &&& final(environment)@ == o.env
            &&& env_wf(final(environment)@)
            &&& final(reporter)@ == old(reporter)@ + o.errs
            &&& match r {
                Ok(v) => o.ok && v@ == o.val && value_wf(v@),
                Err(e) => !o.ok && e@ == o.err,
            }
        }),
    decreases expr,
{
    let ghost env0 = environment@;
    match expr {
        Expr::Literal(t) => {
            if t.token_type == TokenType::Number {
                match num_from_lexeme(t.lexeme.as_str()) {
                    Some(x) => {
                        proof {
                            assert(old(reporter)@ + Seq::<ErrorV>::empty() =~= old(reporter)@);
                        }
                        Ok(EvalResult::Number(x))
                    },
                    None => {
                        let e = reporter.runtime_error(t.line, "Invalid number literal.");
                        proof {
                            assert(old(reporter)@ + eval_expr(env0, expr@).errs =~= reporter@);
                        }
                        Err(e)
                    },
                }
            } else if t.token_type == TokenType::String {
                let len = t.lexeme.as_str().unicode_len();
                proof {
                    assert(old(reporter)@ + Seq::<ErrorV>::empty() =~= old(reporter)@);
                }
                if len >= 2 {
                    let body = t.lexeme.as_str().substring_char(1, len - 1);
                    Ok(EvalResult::Str(unescape_quotes(body)))
                } else {
                    proof {
                        assert(string_content(t.lexeme@) =~= Seq::<char>::empty());
                    }
                    Ok(EvalResult::Str(String::new()))
                }
            } else if t.token_type == TokenType::Null {
                proof {
                    assert(old(reporter)@ + Seq::<ErrorV>::empty() =~= old(reporter)@);
                }
                Ok(EvalResult::Null)
            } else if t.token_type == TokenType::True {
                proof {
                    assert(old(reporter)@ + Seq::<ErrorV>::empty() =~= old(reporter)@);
                }
                Ok(EvalResult::Number(Num::from_int(1)))
            } else if t.token_type == TokenType::False {
                proof {
                    assert(old(reporter)@ + Seq::<ErrorV>::empty() =~= old(reporter)@);
                }
                Ok(EvalResult::Number(Num::from_int(0)))
            } else if t.token_type == TokenType::Identifier {
                match environment.get(t.lexeme.as_str()) {
                    Ok(v) => {
                        proof {
                            assert(old(reporter)@ + Seq::<ErrorV>::empty() =~= old(reporter)@);
                        }
                        Ok(v)
                    },
                    Err(msg) => {
                        let e = reporter.runtime_error(t.line, msg.as_str());
                        proof {
                            assert(old(reporter)@ + eval_expr(env0, expr@).errs =~= reporter@);
                        }
                        Err(e)
                    },
                }
            } else {
                let e = reporter.runtime_error(t.line, "Syntax error.");
                proof {
                    assert(old(reporter)@ + eval_expr(env0, expr@).errs =~= reporter@);
                }
                Err(e)
            }
        },
        Expr::Grouping(e) => eval_ast(environment, e, reporter),
        Expr::Unary(op, e) => {
            let v = match eval_ast(environment, e, reporter) {
                Ok(v) => v,
                Err(err) => {
                    return Err(err);
                },
            };
            let ghost o = eval_expr(env0, (*e)@);
            match v {
                EvalResult::Number(x) => {
                    if op.token_type == TokenType::Minus {
                        match num_neg(x) {
                            Some(c) => Ok(EvalResult::Number(c)),
                            None => {
                                let err = reporter.runtime_error(op.line, "Numeric overflow.");
                                proof {
                                    assert(old(reporter)@ + eval_expr(env0, expr@).errs
                                        =~= reporter@);
                                }
                                Err(err)
                            },
                        }
                    } else if op.token_type == TokenType::Not {
                        Ok(EvalResult::Number(Num::from_int(if x.n != 0 { 0 } else { 1 })))
                    } else {
                        let mut m = String::from_str("Unknown operator: ");
                        m.append(op.lexeme.as_str());
                        let err = reporter.runtime_error(op.line, m.as_str());
                        proof {
                            assert(old(reporter)@ + eval_expr(env0, expr@).errs =~= reporter@);
                        }
                        Err(err)
                    }
                },
                other => {
                    let mut m = String::from_str("Expression type not allowed: ");
                    let vt = other.to_text();
                    m.append(vt.as_str());
                    let err = reporter.runtime_error(op.line, m.as_str());
                    proof {
                        assert(old(reporter)@ + eval_expr(env0, expr@).errs =~= reporter@);
                    }
                    Err(err)
                },
            }
        },
        Expr::Binary(l, op, r) => {
            if op.token_type == TokenType::Equal {
                let target = match &**l {
                    Expr::Literal(lt) => {
                        if lt.token_type == TokenType::Identifier {
                            Some(lt)
                        } else {
                            None
                        }
                    },
                    _ => None,
                };
                match target {
                    Some(lt) => {
                        let v = match eval_ast(environment, r, reporter) {
                            Ok(v) => v,
                            Err(err) => {
                                return Err(err);
                            },
                        };
                        environment.set(lt.lexeme.as_str(), &v);
                        Ok(v)
                    },
                    None => {
                        let mut m = String::from_str("Invalid assignment target: ");
                        let fa = format_ast(l);
                        m.append(fa.as_str());
                        let err = reporter.runtime_error(op.line, m.as_str());
                        proof {
                            assert(old(reporter)@ + eval_expr(env0, expr@).errs =~= reporter@);
                        }
                        Err(err)
                    },
                }
            } else {
                let lv = match eval_ast(environment, l, reporter) {
                    Ok(v) => v,
                    Err(err) => {
                        return Err(err);
                    },
                };
                let ghost lo = eval_expr(env0, (*l)@);
                if op.token_type == TokenType::And {
                    if !truthy_of(&lv) {
                        Ok(EvalResult::Number(Num::from_int(0)))
                    } else {
                        let rv = match eval_ast(environment, r, reporter) {
                            Ok(v) => v,
                            Err(err) => {
                                proof {
                                    let ro = eval_expr(lo.env, (*r)@);
                                    assert(old(reporter)@ + (lo.errs + ro.errs) =~= reporter@);
                                }
                                return Err(err);
                            },
                        };
                        proof {
                            let ro = eval_expr(lo.env, (*r)@);
                            assert(old(reporter)@ + (lo.errs + ro.errs) =~= reporter@);
                        }
                        Ok(EvalResult::Number(Num::from_int(if truthy_of(&rv) { 1 } else { 0 })))
                    }
                } else if op.token_type == TokenType::Or {
                    if truthy_of(&lv) {
                        Ok(EvalResult::Number(Num::from_int(1)))
                    } else {
                        let rv = match eval_ast(environment, r, reporter) {
                            Ok(v) => v,
                            Err(err) => {
                                proof {
                                    let ro = eval_expr(lo.env, (*r)@);
                                    assert(old(reporter)@ + (lo.errs + ro.errs) =~= reporter@);
                                }
                                return Err(err);
                            },
                        };
                        proof {
                            let ro = eval_expr(lo.env, (*r)@);
                            assert(old(reporter)@ + (lo.errs + ro.errs) =~= reporter@);
                        }
                        Ok(EvalResult::Number(Num::from_int(if truthy_of(&rv) { 1 } else { 0 })))
                    }
                } else {
                    let rv = match eval_ast(environment, r, reporter) {
                        Ok(v) => v,
                        Err(err) => {
                            proof {
                                let ro = eval_expr(lo.env, (*r)@);
                                assert(old(reporter)@ + (lo.errs + ro.errs) =~= reporter@);
                            }
                            return Err(err);
                        },
                    };
                    let ghost ro = eval_expr(lo.env, (*r)@);
                    proof {
                        assert(old(reporter)@ + (lo.errs + ro.errs) =~= reporter@);
                    }
                    match eval_binop_exec(op, &lv, &rv) {
                        Ok(v) => {
                            proof {
                                assert(old(reporter)@ + eval_expr(env0, expr@).errs =~= reporter@);
                            }
                            Ok(v)
                        },
                        Err(msg) => {
                            let err = reporter.runtime_error(op.line, msg.as_str());
                            proof {
                                assert(old(reporter)@ + (lo.errs + ro.errs + seq![err@])
                                    =~= reporter@);
                            }
                            Err(err)
                        },
                    }
                }
            }
        },
    }
}

/// The outcome of running a statement sequence: the environment after
/// it, the REPL-style last value, the lines printed, and every
/// diagnostic recorded.
#[verifier::ext_equal]
pub ghost struct StOut {
    pub env: EnvV,
    pub val: ValueV,
    pub prints: Seq<Seq<char>>,
    pub errs: Seq<ErrorV>,
}

/// Runs one statement.  An expression statement stores its value under
/// the reserved name `_` and becomes the last value; a print statement
/// emits its value's text and resets the last value to null.  A runtime
/// failure leaves the last value as it was.
pub open spec fn eval_stmt_spec(env: EnvV, s: StmtV, last: ValueV) -> StOut {
    match s {
        StmtV::Expression(e) => {
            let o = eval_expr(env, e);
            if o.ok {
                StOut {
                    env: env_set(o.env, "_"@, o.val),
                    val: o.val,
                    prints: Seq::empty(),
                    errs: o.errs,
                }
            } else {
                StOut { env: o.env, val: last, prints: Seq::empty(), errs: o.errs }
            }
        },
        StmtV::Print(e) => {
            let o = eval_expr(env, e);
            if o.ok {
                StOut {
                    env: o.env,
                    val: ValueV::Null,
                    prints: seq![value_text(o.val)],
                    errs: o.errs,
                }
            } else {
                StOut { env: o.env, val: last, prints: Seq::empty(), errs: o.errs }
            }
        },
    }
}

/// Runs statements in order; a runtime failure ends only its own
/// statement, and the ones after it still run.
pub open spec fn eval_stmts_spec(env: EnvV, stmts: Seq<StmtV>, last: ValueV) -> StOut
    decreases stmts.len(),
{
    if stmts.len() == 0 {
        StOut { env, val: last, prints: Seq::empty(), errs: Seq::empty() }
    } else {
        let s1 = eval_stmt_spec(env, stmts[0], last);
        let rest = eval_stmts_spec(s1.env, stmts.drop_first(), s1.val);
        StOut {
            env: rest.env,
            val: rest.val,
            prints: s1.prints + rest.prints,
            errs: s1.errs + rest.errs,
        }
    }
}

/// Runs one statement as `eval_stmt_spec` says.
#[verifier::rlimit(100)]
#[verifier::spinoff_prover]
fn run_stmt(
    environment: &mut Environment,
    stmt: &Stmt,
    reporter: &mut ErrorReporter,
    output: &mut Vec<String>,
    last: &mut EvalResult,
)
    requires
        env_wf(old(environment)@),
        value_wf(old(last)@),
    ensures
        ({
            let o = eval_stmt_spec(old(environment)@, stmt@, old(last)@);
            &&& final(environment)@ == o.env
            &&& env_wf(final(environment)@)
            &&& final(reporter)@ == old(reporter)@ + o.errs
            &&& final(output).deep_view() == old(output).deep_view() + o.prints
            &&& final(last)@ == o.val
            &&& value_wf(final(last)@)
        }),
{
    match stmt {
        Stmt::Expression(e) => {
            match eval_ast(environment, e, reporter) {
                Ok(v) => {
                    environment.set("_", &v);
                    *last = v;
                    proof {
                        assert(old(output).deep_view() + Seq::<Seq<char>>::empty() =~= old(
                            output,
                        ).deep_view());
                    }
                },
                Err(err) => {
                    proof {
                        assert(old(output).deep_view() + Seq::<Seq<char>>::empty() =~= old(
                            output,
                        ).deep_view());
                    }
                },
            }
        },
        Stmt::Print(e) => {
            match eval_ast(environment, e, reporter) {
                Ok(v) => {
                    let line = v.to_text();
                    output.push(line);
                    *last = EvalResult::Null;
                    proof {
                        assert(output.deep_view() =~= old(output).deep_view() + seq![
                            value_text(eval_expr(old(environment)@, e@).val),
                        ]);
                    }
                },
                Err(err) => {
                    proof {
                        assert(old(output).deep_view() + Seq::<Seq<char>>::empty() =~= old(
                            output,
                        ).deep_view());
                    }
                },
            }
        },
    }
}

/// Runs a statement sequence as `eval_stmts_spec` says, appending each
/// `print` statement's line to `output`, and returns the last value.
#[verifier::rlimit(100)]
#[verifier::spinoff_prover]
#[verifier::loop_isolation(false)]
pub fn eval_stmts(
    environment: &mut Environment,
    stmts: &Vec<Stmt>,
    reporter: &mut ErrorReporter,
    output: &mut Vec<String>,
) -> (r: EvalResult)
    requires
        env_wf(old(environment)@),
    ensures
        ({
            let o = eval_stmts_spec(old(environment)@, stmts.deep_view(), ValueV::Null);
            &&& final(environment)@ == o.env
            &&& env_wf(final(environment)@)
            &&& final(reporter)@ == old(reporter)@ + o.errs
            &&& final(output).deep_view() == old(output).deep_view() + o.prints
            &&& r@ == o.val
            &&& value_wf(r@)
        }),
{
    let ghost env0 = environment@;
    let ghost all = stmts.deep_view();
    let ghost errs0 = reporter@;
    let ghost out0 = output.deep_view();
    let ghost full = eval_stmts_spec(env0, all, ValueV::Null);
    let mut result = EvalResult::Null;
    let mut i: usize = 0;
    let ghost mut emitted_e = Seq::<ErrorV>::empty();
    let ghost mut emitted_p = Seq::<Seq<char>>::empty();
    proof {
        assert(all.skip(0) =~= all);
        assert(errs0 + emitted_e =~= errs0);
        assert(out0 + emitted_p =~= out0);
    }
    while i < stmts.len()
        invariant
            i <= stmts.len(),
            stmts.deep_view() == all,
            all.len() == stmts.len(),
            env_wf(environment@),
            value_wf(result@),
            reporter@ == errs0 + emitted_e,
            output.deep_view() == out0 + emitted_p,
            ({
                let rem = eval_stmts_spec(environment@, all.skip(i as int), result@);
                &&& full.env == rem.env
                &&& full.val == rem.val
                &&& full.prints == emitted_p + rem.prints
                &&& full.errs == emitted_e + rem.errs
            }),
        decreases stmts.len() - i,
    {
        let ghost envc = environment@;
        let ghost resc = result@;
        let ghost ee0 = emitted_e;
        let ghost ep0 = emitted_p;
        proof {
            assert(all.skip(i as int)[0] == all[i as int]);
            assert(all.skip(i as int).drop_first() =~= all.skip(i + 1));
            assert(all[i as int] == stmts@[i as int]@);
        }
        run_stmt(environment, &stmts[i], reporter, output, &mut result);
        proof {
            let s1 = eval_stmt_spec(envc, all[i as int], resc);
            emitted_e = ee0 + s1.errs;
            emitted_p = ep0 + s1.prints;
            assert(reporter@ =~= errs0 + emitted_e);
            assert(output.deep_view() =~= out0 + emitted_p);
            let rem2 = eval_stmts_spec(environment@, all.skip(i + 1), result@);
            assert(full.prints =~= emitted_p + rem2.prints);
            assert(full.errs =~= emitted_e + rem2.errs);
        }
        i += 1;
    }
    proof {
        assert(all.skip(i as int) =~= Seq::<StmtV>::empty());
        assert(emitted_p + Seq::<Seq<char>>::empty() =~= emitted_p);
        assert(emitted_e + Seq::<ErrorV>::empty() =~= emitted_e);
    }
    result
}

/// Evaluation never changes how many scope frames the environment has.
pub proof fn lemma_eval_env_len(env: EnvV, e: ExprV)
    requires
        env.len() >= 1,
    ensures
        eval_expr(env, e).env.len() == env.len(),
    decreases e,
{
    match e {
        ExprV::Literal(t) => {},
        ExprV::Grouping(inner) => {
            lemma_eval_env_len(env, *inner);
        },
        ExprV::Unary(op, inner) => {
            lemma_eval_env_len(env, *inner);
        },
        ExprV::Binary(l, op, r) => {
            if op.kind == TokenType::Equal {
                lemma_eval_env_len(env, *r);
            } else {
                lemma_eval_env_len(env, *l);
                let lo = eval_expr(env, *l);
                if lo.ok {
                    lemma_eval_env_len(lo.env, *r);
                }
            }
        },
    }
}

/// Law: assignment persists.  After a successful assignment to a bare
/// identifier, looking that identifier up in the resulting environment
/// yields exactly the assigned value, so later statements see it.
pub proof fn lemma_assignment_persists(env: EnvV, t: TokenV, eq: TokenV, rhs: ExprV)
    requires
        env.len() >= 1,
        t.kind == TokenType::Identifier,
        eq.kind == TokenType::Equal,
    ensures
        ({
            let o = eval_expr(env, ExprV::Binary(Box::new(ExprV::Literal(t)), eq, Box::new(rhs)));
            o.ok ==> env_get(o.env, t.lexeme) == Some(o.val)
        }),
{
    let o = eval_expr(env, ExprV::Binary(Box::new(ExprV::Literal(t)), eq, Box::new(rhs)));
    let inner = eval_expr(env, rhs);
    if inner.ok {
        lemma_eval_env_len(env, rhs);
        crate::environment::lemma_env_set_get(inner.env, t.lexeme, inner.val);
    }
}

/// Law: an unresolved identifier produces exactly one runtime
/// diagnostic, and that diagnostic names the identifier; the environment
/// is left untouched.
pub proof fn lemma_undefined_identifier(env: EnvV, t: TokenV)
    requires
        t.kind == TokenType::Identifier,
        env_get(env, t.lexeme) is None,
    ensures
        ({
            let o = eval_expr(env, ExprV::Literal(t));
            &&& !o.ok
            &&& o.errs =~= seq![o.err]
            &&& o.err.stage == ErrorStage::Runtime
            &&& o.err.message == undefined_text(t.lexeme)
            &&& o.env == env
        }),
{
    let o = eval_expr(env, ExprV::Literal(t));
    assert(o.errs =~= seq![o.err]);
}

/// Law: a runtime failure is bounded to its own statement.  Whether or
/// not the first statement of a sequence fails, the statements after it
/// still run, from the environment and last value the first one left.
pub proof fn lemma_statement_fault_isolated(env: EnvV, s: StmtV, rest: Seq<StmtV>, last: ValueV)
    ensures
        ({
            let s1 = eval_stmt_spec(env, s, last);
            let r2 = eval_stmts_spec(s1.env, rest, s1.val);
            eval_stmts_spec(env, seq![s] + rest, last) == (StOut {
                env: r2.env,
                val: r2.val,
                prints: s1.prints + r2.prints,
                errs: s1.errs + r2.errs,
            })
        }),
{
    let whole = seq![s] + rest;
    assert(whole[0] == s);
    assert(whole.drop_first() =~= rest);
}

/// Law: evaluation of a binary arithmetic or comparison node is
/// compositional — post-order, applying the operator to the values of
/// the two operands.  Together with the parser's grammar (`p_level`
/// assigns each operator its precedence level and groups left), this
/// fixes the value of every valid arithmetic expression by standard
/// operator precedence.
pub proof fn lemma_binary_evaluation_compositional(env: EnvV, l: ExprV, op: TokenV, r: ExprV)
    requires
        op.kind != TokenType::Equal,
        op.kind != TokenType::And,
        op.kind != TokenType::Or,
        eval_expr(env, l).ok,
        eval_expr(eval_expr(env, l).env, r).ok,
    ensures
        ({
            let lo = eval_expr(env, l);
            let ro = eval_expr(lo.env, r);
            let b = eval_binop(op, lo.val, ro.val);
            let o = eval_expr(env, ExprV::Binary(Box::new(l), op, Box::new(r)));
            &&& o.ok == b.ok
            &&& b.ok ==> o.val == b.val
            &&& !b.ok ==> o.err == b.err
            &&& o.env == ro.env
        }),
{
}

} // verus!
