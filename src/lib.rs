//! A tree-walking interpreter for a small scripting language: a scanner, a
//! recursive-descent parser, lexically scoped bindings, and an evaluator.
//! Numbers are IEEE-754 single-precision values held as their encodings; the
//! host supplies decoding and arithmetic (see [`interpreter::NumberOp`]).
use vstd::prelude::*;

pub mod ast;
pub mod environment;
pub mod interpreter;
pub mod object;
pub mod parser;
pub mod result;
pub mod scanner;
pub mod text;

use crate::ast::{tokens_view, Expr, Token};
use crate::interpreter::{
    arithmetic, eval, exec_all, host_ready, law_runs_depend_on_scopes_alone, lemma_agree_same,
    runs_agree, same_outcome, values_of, Interpreter, Machine, NumberOp,
};
use crate::object::{Object, Value};
use crate::parser::{errors_view, parse_spec, Parser};
use crate::result::{Diagnostic, RloxResult};
use crate::scanner::{scan_spec, Scanner};

verus! {

/// Running source text from `m`: the first scanner diagnostic; else, for the
/// tokens scanned, the first parser diagnostic; else the run of the statements.
pub open spec fn run_spec(num: spec_fn(NumberOp) -> u32, source: Seq<char>, tokens: Seq<Token>, m: Machine) -> (
    Result<(), Diagnostic>,
    Machine,
) {
    match scan_spec(source) {
        Err(d) => (Err(d), m),
        Ok(_) => match parse_spec(tokens) {
            Err(ds) => (Err(ds[0]), m),
            Ok(ss) => exec_all(num, ss, 0, m),
        },
    }
}

/// Whether `tokens` are what the scanner hands over for `source`, when it succeeds.
pub open spec fn scanned_as(source: Seq<char>, tokens: Seq<Token>) -> bool {
    scan_spec(source) is Ok ==> scan_spec(source) == Ok::<_, Diagnostic>(tokens_view(tokens))
}

/// Whether running `source` (scanned as `tokens`) from `m0` ended with `r` in `m1`.
pub open spec fn ran(
    num: spec_fn(NumberOp) -> u32,
    source: Seq<char>,
    tokens: Seq<Token>,
    m0: Machine,
    r: RloxResult<()>,
    m1: Machine,
) -> bool {
    &&& scanned_as(source, tokens)
    &&& same_outcome(r, run_spec(num, source, tokens, m0).0, |u: ()| u)
    &&& m1 == run_spec(num, source, tokens, m0).1
}

/// The state of a fresh session.
pub open spec fn fresh_machine() -> Machine {
    Machine { env: seq![Map::<Seq<char>, Value>::empty()], printed: Seq::empty() }
}

/// Scans, parses and runs `source` in `interpreter`. Nothing runs unless the
/// whole source scans and parses; a runtime error stops the run but keeps
/// what was printed and bound before it.
pub fn run<H: Fn(NumberOp) -> u32>(interpreter: &mut Interpreter, source: &str, host: &H) -> (r:
    RloxResult<()>)
    requires
        old(interpreter).wf(),
        host_ready(*host),
        source@.len() < usize::MAX,
    ensures
        final(interpreter).wf(),
        exists|tokens: Seq<Token>|
            #[trigger] ran(
                arithmetic(*host),
                source@,
                tokens,
                old(interpreter).machine(),
                r,
                final(interpreter).machine(),
            ),
{
    let ghost num = arithmetic(*host);
    let ghost m0 = interpreter.machine();
    let tokens = match Scanner::scan(source) {
        Ok(tokens) => tokens,
        Err(e) => {
            let r = Err(e);
            assert(ran(num, source@, Seq::empty(), m0, r, interpreter.machine()));
            return r;
        },
    };
    let ghost toks = tokens@;
    proof {
        crate::parser::lemma_scanned_tokens_wf(source@, toks);
    }
    let statements = match Parser::parse(tokens) {
        Ok(statements) => statements,
        Err(mut errors) => {
            assert(errors_view(errors@).len() == errors@.len());
            let first = errors.swap_remove(0);
            let r = Err(first);
            assert(ran(num, source@, toks, m0, r, interpreter.machine()));
            return r;
        },
    };
    let r = interpreter.interpret(&statements, host);
    assert(ran(num, source@, toks, m0, r, interpreter.machine()));
    r
}

/// Runs `input` in a fresh session: the values it printed, and how it ended.
pub fn evaluate<H: Fn(NumberOp) -> u32>(input: &str, host: &H) -> (r: (Vec<Object>, RloxResult<()>))
    requires
        host_ready(*host),
        input@.len() < usize::MAX,
    ensures
        exists|tokens: Seq<Token>, m: Machine|
            #[trigger] ran(arithmetic(*host), input@, tokens, fresh_machine(), r.1, m)
                && values_of(r.0@) == m.printed,
{
    let mut interpreter = Interpreter::new();
    assert(interpreter.machine() == fresh_machine());
    let r = run(&mut interpreter, input, host);
    let ghost m = interpreter.machine();
    let printed = interpreter.take_output();
    proof {
        let tokens = choose|tokens: Seq<Token>|
            #[trigger] ran(arithmetic(*host), input@, tokens, fresh_machine(), r, m);
        assert(ran(arithmetic(*host), input@, tokens, fresh_machine(), r, m));
        assert(values_of(printed@) == m.printed);
        assert(ran(arithmetic(*host), input@, tokens, fresh_machine(), (printed, r).1, m) && values_of((printed, r).0@) == m.printed);
    }
    (printed, r)
}

/// Running one source text twice, from states with the same scopes (a fresh
/// session each time, whatever ran before), with the same host: both runs end
/// the same way, in the same scopes, and print the same values after what each
/// had printed before. Here `tokens` are the tokens that the contracts of
/// [`run`] and [`evaluate`] name for that text.
pub proof fn law_runs_of_one_source_agree(
    num: spec_fn(NumberOp) -> u32,
    source: Seq<char>,
    tokens: Seq<Token>,
    m1: Machine,
    m2: Machine,
)
    requires
        m1.env == m2.env,
        scanned_as(source, tokens),
    ensures
        run_spec(num, source, tokens, m1).0 == run_spec(num, source, tokens, m2).0,
        runs_agree(m1, m2, run_spec(num, source, tokens, m1).1, run_spec(num, source, tokens, m2).1),
{
    match scan_spec(source) {
        Err(_) => lemma_agree_same(m1, m2, m1.env),
        Ok(_) => match parse_spec(tokens) {
            Err(_) => lemma_agree_same(m1, m2, m1.env),
            Ok(ss) => law_runs_depend_on_scopes_alone(num, ss, m1, m2),
        },
    }
}

/// An evaluator of single expressions, each in an empty environment.
pub struct Interpret {}

impl Interpret {
    pub fn new() -> (r: Interpret) {
        Interpret {}
    }

    /// The value of `expr` in an empty environment.
    pub fn evaluate<H: Fn(NumberOp) -> u32>(&mut self, expr: &Expr, host: &H) -> (r: RloxResult<Object>)
        requires
            host_ready(*host),
        ensures
            same_outcome(
                r,
                eval(arithmetic(*host), *expr, seq![Map::<Seq<char>, Value>::empty()]).0,
                |o: Object| o@,
            ),
    {
        let mut session = Interpreter::new();
        session.evaluate(expr, host)
    }
}

} // verus!
