//! A small scripting-language front end: a scanner that turns source text
//! into tokens, a recursive-descent parser that turns tokens into statement
//! trees, and a tree-walking evaluator that runs those trees against a
//! chained variable environment.  Diagnostics from every stage are collected
//! in an `ErrorReporter`; an outside driver feeds in source strings and
//! prints the lines this library hands back.

pub mod environment;
pub mod error;
pub mod error_reporter;
pub mod error_stage;
pub mod eval_result;
pub mod expression;
pub mod number;
pub mod parser;
pub mod scanner;
pub mod statement;
pub mod text;
pub mod token;
pub mod token_type;

pub use error::Error;
pub use eval_result::EvalResult;
pub use expression::{format_ast, Expr};
pub use token::Token;
pub use token_type::TokenType;

use vstd::prelude::*;

use crate::environment::{env_wf, EnvV, Environment};
use crate::error::ErrorV;
use crate::error_reporter::{dump_text, has_stage, ErrorReporter};
use crate::error_stage::ErrorStage;
use crate::eval_result::{value_text, ValueV};
use crate::expression::{eval_stmts, eval_stmts_spec};
use crate::parser::{p_program, Parser};
use crate::scanner::{scan_spec, Scanner};

verus! {

/// What one run of a source string produces: the environment after it,
/// the two error flags, and the lines to show, in order: the `print`
/// statements' output, the final non-null value if any, and, when any
/// diagnostic was recorded, the formatted diagnostic dump.
#[verifier::ext_equal]
pub ghost struct RunOut {
    pub env: EnvV,
    pub had_error: bool,
    pub had_runtime_error: bool,
    pub lines: Seq<Seq<char>>,
}

/// The whole pipeline on one source string: scan, parse, evaluate.
pub open spec fn run_spec(env: EnvV, code: Seq<char>) -> RunOut {
    let sc = scan_spec(code, 0, 1);
    let pp = p_program(sc.toks, 0);
    let ev = eval_stmts_spec(env, pp.stmts, ValueV::Null);
    let errs_all = sc.errs + pp.errs + ev.errs;
    let had_error = has_stage(errs_all, ErrorStage::Compile);
    let had_runtime_error = has_stage(errs_all, ErrorStage::Runtime);
    let result_lines: Seq<Seq<char>> = if ev.val != ValueV::Null {
        seq![value_text(ev.val)]
    } else {
        Seq::empty()
    };
    let dump_lines: Seq<Seq<char>> = if had_error || had_runtime_error {
        dump_text(errs_all, 0)
    } else {
        Seq::empty()
    };
    RunOut {
        env: ev.env,
        had_error,
        had_runtime_error,
        lines: ev.prints + result_lines + dump_lines,
    }
}

/// The interpreter session: a global environment that lives across runs,
/// and the error flags of the last run.
pub struct Miniscript {
    pub globals: Environment,
    pub had_error: bool,
    pub had_runtime_error: bool,
}

/// A well-formed session: its global environment is well formed.
pub open spec fn miniscript_wf(m: Miniscript) -> bool {
    env_wf(m.globals@)
}

impl Miniscript {
    /// A fresh session with an empty global scope.
    pub fn new() -> (r: Miniscript)
        ensures
            miniscript_wf(r),
            r.globals@ == seq![Seq::<(Seq<char>, ValueV)>::empty()],
            !r.had_error,
            !r.had_runtime_error,
    {
        Miniscript {
            globals: Environment::new_root(),
            had_error: false,
            had_runtime_error: false,
        }
    }

    /// Runs one source string through the whole pipeline, as `run_spec`
    /// says, updating the globals and the error flags.  Returns whether a
    /// compile diagnostic was recorded, and the lines for the driver to
    /// print.
    #[verifier::rlimit(100)]
    #[verifier::spinoff_prover]
    pub fn run(&mut self, code: &str) -> (r: (bool, Vec<String>))
        requires
            miniscript_wf(*old(self)),
            code@.len() < 0x7fff_ffff_ffff_fffe,
        ensures
            miniscript_wf(*final(self)),
            ({
                let out = run_spec(old(self).globals@, code@);
                &&& final(self).globals@ == out.env
                &&& final(self).had_error == out.had_error
                &&& final(self).had_runtime_error == out.had_runtime_error
                &&& r.0 == out.had_error
                &&& r.1.deep_view() == out.lines
            }),
    {
        let ghost env0 = self.globals@;
        let mut reporter = ErrorReporter::new();
        let mut scanner = Scanner::new(code);
        scanner.scan_tokens(&mut reporter);
        let ghost sc = scan_spec(code@, 0, 1);
        proof {
            crate::scanner::lemma_scan_spec_ends_eof(code@, 0, 1);
            assert(scanner.tokens.deep_view() =~= sc.toks);
            assert(reporter@ =~= sc.errs);
        }
        let mut parser = Parser::new(scanner.tokens);
        let stmts = match parser.parse(&mut reporter) {
            Ok(stmts) => stmts,
            Err(_e) => Vec::new(),
        };
        let ghost pp = p_program(sc.toks, 0);
        proof {
            assert(reporter@ =~= sc.errs + pp.errs);
            assert(stmts.deep_view() == pp.stmts);
        }
        let mut lines: Vec<String> = Vec::new();
        let result = eval_stmts(&mut self.globals, &stmts, &mut reporter, &mut lines);
        let ghost ev = eval_stmts_spec(env0, pp.stmts, ValueV::Null);
        let ghost errs_all = sc.errs + pp.errs + ev.errs;
        proof {
            assert(reporter@ =~= errs_all);
            assert(lines.deep_view() =~= ev.prints);
        }
        let is_null = matches!(result, EvalResult::Null);
        if !is_null {
            let line = result.to_text();
            lines.push(line);
        }
        proof {
            assert(lines.deep_view() =~= ev.prints + (if ev.val != ValueV::Null {
                seq![value_text(ev.val)]
            } else {
                Seq::<Seq<char>>::empty()
            }));
        }
        self.had_error = reporter.had_error();
        self.had_runtime_error = reporter.had_runtime_error();
        if self.had_error || self.had_runtime_error {
            let mut dl = reporter.dump_lines();
            let ghost pre = lines.deep_view();
            let ghost dlv = dl.deep_view();
            lines.append(&mut dl);
            proof {
                assert(lines.deep_view() =~= pre + dlv);
            }
        }
        proof {
            assert(lines.deep_view() =~= run_spec(env0, code@).lines);
        }
        (self.had_error, lines)
    }
}

} // verus!
