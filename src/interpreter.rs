//! Evaluation of expressions and execution of statements.
use vstd::prelude::*;

use crate::ast::{stmt_model, stmts_model, BinaryOp, Expr, LiteralValue, Stmt, StmtModel, UnaryOp};
use crate::environment::{assign, define, lookup, undefined, Environment, Scopes};
use crate::object::{
    bool_value, compare_numbers, compare_text, concat_text, negate_number, negated, number_order,
    shape_name, text_order, truthy, values_equal, Object, Value,
};
use crate::result::{diagnostic, Diagnostic, Error, RloxResult, Stage};
use crate::text::joined;
use std::cmp::Ordering;
use vstd::string::StringExecFns;

verus! {

/// What the host computes on encoded numbers: decoding a literal's digits
/// (rounded to nearest) and the four IEEE-754 single-precision operations.
pub enum NumberOp {
    Literal(String),
    Add(u32, u32),
    Subtract(u32, u32),
    Multiply(u32, u32),
    Divide(u32, u32),
}

/// What `host` answers for `op`.
pub open spec fn answer<H: Fn(NumberOp) -> u32>(host: H, op: NumberOp) -> u32 {
    choose|r: u32| call_ensures(host, (op,), r)
}

/// The host accepts every request and answers each one in a single way.
pub open spec fn host_ready<H: Fn(NumberOp) -> u32>(host: H) -> bool {
    &&& forall|op: NumberOp| call_requires(host, (op,))
    &&& forall|op: NumberOp, r: u32| #[trigger] call_ensures(host, (op,), r) ==> r == answer(host, op)
}

/// The host's answers as a function.
pub open spec fn arithmetic<H: Fn(NumberOp) -> u32>(host: H) -> spec_fn(NumberOp) -> u32 {
    |op: NumberOp| answer(host, op)
}

pub open spec fn runtime_error(line: usize, msg: Seq<char>) -> Diagnostic {
    diagnostic(Stage::Runtime, line as nat, msg)
}

pub open spec fn msg_operand_number() -> Seq<char> {
    "Operand must be a number."@
}

pub open spec fn msg_operands_numbers() -> Seq<char> {
    "Operands must be numbers."@
}

pub open spec fn msg_operands_add() -> Seq<char> {
    "Operands must be numbers or strings."@
}

pub open spec fn msg_comparison(a: Value, b: Value) -> Seq<char> {
    "Invalid comparison between types (left: "@ + shape_name(a) + ", right: "@ + shape_name(b)
        + ")."@
}

/// The runtime value of a literal.
pub open spec fn literal_value(num: spec_fn(NumberOp) -> u32, lit: LiteralValue) -> Value {
    match lit {
        LiteralValue::Number(text) => Value::Number(num(NumberOp::Literal(text))),
        LiteralValue::String(s) => Value::Str(s@),
        LiteralValue::True => Value::True,
        LiteralValue::False => Value::False,
        LiteralValue::Nil => Value::Nil,
    }
}

/// A unary operator applied to a value.
pub open spec fn unary_value(op: UnaryOp, v: Value, line: usize) -> Result<Value, Diagnostic> {
    match op {
        UnaryOp::Not => Ok(bool_value(!truthy(v))),
        UnaryOp::Neg => match v {
            Value::Number(bits) => Ok(Value::Number(negated(bits))),
            _ => Err(runtime_error(line, msg_operand_number())),
        },
    }
}

/// The order of two values when they can be ordered: two numbers (none when
/// either is NaN) or two strings.
pub open spec fn value_order(a: Value, b: Value) -> Option<Option<Ordering>> {
    match (a, b) {
        (Value::Number(x), Value::Number(y)) => Some(number_order(x, y)),
        (Value::Str(x), Value::Str(y)) => Some(Some(text_order(x, y))),
        _ => None,
    }
}

/// Whether an ordering operator holds of an order.
pub open spec fn order_holds(op: BinaryOp, o: Option<Ordering>) -> bool {
    match op {
        BinaryOp::Greater => o == Some(Ordering::Greater),
        BinaryOp::GreaterEqual => o == Some(Ordering::Greater) || o == Some(Ordering::Equal),
        BinaryOp::Less => o == Some(Ordering::Less),
        _ => o == Some(Ordering::Less) || o == Some(Ordering::Equal),
    }
}

/// The number the host computes for an arithmetic operator.
pub open spec fn arith_request(op: BinaryOp, a: u32, b: u32) -> NumberOp {
    match op {
        BinaryOp::Plus => NumberOp::Add(a, b),
        BinaryOp::Minus => NumberOp::Subtract(a, b),
        BinaryOp::Star => NumberOp::Multiply(a, b),
        _ => NumberOp::Divide(a, b),
    }
}

/// A binary operator applied to two values; `line` is the operator's line.
pub open spec fn binary_value(
    num: spec_fn(NumberOp) -> u32,
    op: BinaryOp,
    a: Value,
    b: Value,
    line: usize,
) -> Result<Value, Diagnostic> {
    match op {
        BinaryOp::Plus => match (a, b) {
            (Value::Number(x), Value::Number(y)) => Ok(Value::Number(num(NumberOp::Add(x, y)))),
            (Value::Str(x), Value::Str(y)) => Ok(Value::Str(x + y)),
            _ => Err(runtime_error(line, msg_operands_add())),
        },
        BinaryOp::Minus | BinaryOp::Star | BinaryOp::Slash => match (a, b) {
            (Value::Number(x), Value::Number(y)) => Ok(Value::Number(num(arith_request(op, x, y)))),
            _ => Err(runtime_error(line, msg_operands_numbers())),
        },
        BinaryOp::Equal => Ok(bool_value(values_equal(a, b))),
        BinaryOp::NotEqual => Ok(bool_value(!values_equal(a, b))),
        _ => match value_order(a, b) {
            Some(o) => Ok(bool_value(order_holds(op, o))),
            None => Err(runtime_error(line, msg_comparison(a, b))),
        },
    }
}

/// The value of `e` in `env`, and the scopes after its assignments.
pub open spec fn eval(num: spec_fn(NumberOp) -> u32, e: Expr, env: Scopes) -> (
    Result<Value, Diagnostic>,
    Scopes,
)
    decreases e,
{
    match e {
        Expr::Literal(lit) => (Ok(literal_value(num, lit)), env),
        Expr::Grouping(inner) => eval(num, *inner, env),
        Expr::Variable(id) => match lookup(env, id.lexeme@) {
            Some(v) => (Ok(v), env),
            None => (Err(undefined(id)), env),
        },
        Expr::Assign(id, value) => {
            let (r, env1) = eval(num, *value, env);
            match r {
                Err(d) => (Err(d), env1),
                Ok(v) => match assign(env1, id.lexeme@, v) {
                    Some(env2) => (Ok(v), env2),
                    None => (Err(undefined(id)), env1),
                },
            }
        },
        Expr::Unary(op, operand, line) => {
            let (r, env1) = eval(num, *operand, env);
            match r {
                Err(d) => (Err(d), env1),
                Ok(v) => (unary_value(op, v, line), env1),
            }
        },
        Expr::Binary(left, op, right, line) => {
            let (a, env1) = eval(num, *left, env);
            match a {
                Err(d) => (Err(d), env1),
                Ok(x) => {
                    let (b, env2) = eval(num, *right, env1);
                    match b {
                        Err(d) => (Err(d), env2),
                        Ok(y) => (binary_value(num, op, x, y, line), env2),
                    }
                },
            }
        },
    }
}

/// The state a statement runs in: the scopes and what has been printed.
pub struct Machine {
    pub env: Scopes,
    pub printed: Seq<Value>,
}

/// Running `s` from `m`: the outcome and the state after it. A block runs in
/// a new innermost scope, which is closed again whatever the outcome.
pub open spec fn exec(num: spec_fn(NumberOp) -> u32, s: StmtModel, m: Machine) -> (
    Result<(), Diagnostic>,
    Machine,
)
    decreases s, 0nat,
{
    match s {
        StmtModel::Expression(e) => {
            let (r, env1) = eval(num, e, m.env);
            match r {
                Err(d) => (Err(d), Machine { env: env1, printed: m.printed }),
                Ok(_) => (Ok(()), Machine { env: env1, printed: m.printed }),
            }
        },
        StmtModel::Print(e) => {
            let (r, env1) = eval(num, e, m.env);
            match r {
                Err(d) => (Err(d), Machine { env: env1, printed: m.printed }),
                Ok(v) => (Ok(()), Machine { env: env1, printed: m.printed.push(v) }),
            }
        },
        StmtModel::Var(id, init) => match init {
            None => (Ok(()), Machine { env: define(m.env, id.lexeme@, Value::Nil), printed: m.printed }),
            Some(e) => {
                let (r, env1) = eval(num, *e, m.env);
                match r {
                    Err(d) => (Err(d), Machine { env: env1, printed: m.printed }),
                    Ok(v) => (Ok(()), Machine { env: define(env1, id.lexeme@, v), printed: m.printed }),
                }
            },
        },
        StmtModel::Block(body) => {
            let (r, inner) = exec_all(
                num,
                body,
                0,
                Machine { env: m.env.push(Map::empty()), printed: m.printed },
            );
            (r, Machine { env: inner.env.drop_last(), printed: inner.printed })
        },
    }
}

/// Running `ss[i..]` in order from `m`, stopping at the first failure.
pub open spec fn exec_all(num: spec_fn(NumberOp) -> u32, ss: Seq<StmtModel>, i: int, m: Machine) -> (
    Result<(), Diagnostic>,
    Machine,
)
    decreases ss, ss.len() - i,
{
    if i < 0 || i >= ss.len() {
        (Ok(()), m)
    } else {
        let (r, m1) = exec(num, ss[i], m);
        match r {
            Err(d) => (Err(d), m1),
            Ok(()) => exec_all(num, ss, i + 1, m1),
        }
    }
}

} // verus!

verus! {

pub proof fn lemma_assign_len(env: Scopes, name: Seq<char>, v: Value)
    ensures
        assign(env, name, v) matches Some(e) ==> e.len() == env.len(),
    decreases env.len(),
{
    if env.len() > 0 && !env.last().contains_key(name) {
        lemma_assign_len(env.drop_last(), name, v);
    }
}

pub proof fn lemma_eval_len(num: spec_fn(NumberOp) -> u32, e: Expr, env: Scopes)
    ensures
        eval(num, e, env).1.len() == env.len(),
    decreases e,
{
    match e {
        Expr::Grouping(inner) => lemma_eval_len(num, *inner, env),
        Expr::Assign(id, value) => {
            lemma_eval_len(num, *value, env);
            let (r, env1) = eval(num, *value, env);
            if let Ok(v) = r {
                lemma_assign_len(env1, id.lexeme@, v);
            }
        },
        Expr::Unary(_, operand, _) => lemma_eval_len(num, *operand, env),
        Expr::Binary(left, _, right, _) => {
            lemma_eval_len(num, *left, env);
            lemma_eval_len(num, *right, eval(num, *left, env).1);
        },
        _ => {},
    }
}

pub proof fn lemma_exec_len(num: spec_fn(NumberOp) -> u32, s: StmtModel, m: Machine)
    requires
        m.env.len() > 0,
    ensures
        exec(num, s, m).1.env.len() == m.env.len(),
    decreases s, 0nat,
{
    match s {
        StmtModel::Expression(e) => lemma_eval_len(num, e, m.env),
        StmtModel::Print(e) => lemma_eval_len(num, e, m.env),
        StmtModel::Var(id, init) => match init {
            None => {},
            Some(e) => lemma_eval_len(num, *e, m.env),
        },
        StmtModel::Block(body) => {
            lemma_exec_all_len(
                num,
                body,
                0,
                Machine { env: m.env.push(Map::empty()), printed: m.printed },
            );
        },
    }
}

pub proof fn lemma_exec_all_len(num: spec_fn(NumberOp) -> u32, ss: Seq<StmtModel>, i: int, m: Machine)
    requires
        m.env.len() > 0,
    ensures
        exec_all(num, ss, i, m).1.env.len() == m.env.len(),
    decreases ss, ss.len() - i,
{
    if 0 <= i < ss.len() {
        lemma_exec_len(num, ss[i], m);
        let (r, m1) = exec(num, ss[i], m);
        if r is Ok {
            lemma_exec_all_len(num, ss, i + 1, m1);
        }
    }
}

/// Whether `r` is the outcome `s`, seen through `model`.
pub open spec fn same_outcome<T, V>(r: Result<T, Error>, s: Result<V, Diagnostic>, model: spec_fn(T) -> V) -> bool {
    match s {
        Ok(v) => r is Ok && model(r->Ok_0) == v,
        Err(d) => r is Err && r->Err_0@ == d,
    }
}

pub open spec fn values_of(v: Seq<Object>) -> Seq<Value> {
    v.map_values(|o: Object| o@)
}

/// An interpretation session: the scope chain and the values printed so far.
pub struct Interpreter {
    environment: Environment,
    output: Vec<Object>,
}

impl Interpreter {
    /// The session state as a [`Machine`].
    pub closed spec fn machine(&self) -> Machine {
        Machine { env: self.environment@, printed: values_of(self.output@) }
    }

    /// Between statements only the global scope is open.
    pub closed spec fn wf(&self) -> bool {
        self.environment@.len() == 1
    }

    /// A fresh session: one empty global scope, nothing printed.
    pub fn new() -> (r: Interpreter)
        ensures
            r.wf(),
            r.machine() == (Machine { env: seq![Map::<Seq<char>, Value>::empty()], printed: Seq::empty() }),
    {
        let r = Interpreter { environment: Environment::new(), output: Vec::new() };
        proof {
            assert(values_of(r.output@) =~= Seq::<Value>::empty());
        }
        r
    }

    /// The values printed so far, in order.
    pub fn output(&self) -> (r: &Vec<Object>)
        ensures
            values_of(r@) == self.machine().printed,
    {
        &self.output
    }

    /// Hands out the values printed so far and forgets them.
    pub fn take_output(&mut self) -> (r: Vec<Object>)
        requires
            old(self).wf(),
        ensures
            final(self).wf(),
            values_of(r@) == old(self).machine().printed,
            final(self).machine() == (Machine { env: old(self).machine().env, printed: Seq::empty() }),
    {
        let mut out: Vec<Object> = Vec::new();
        std::mem::swap(&mut out, &mut self.output);
        proof {
            assert(values_of(self.output@) =~= Seq::<Value>::empty());
        }
        out
    }

    /// Runs `statements` in order, stopping at the first runtime error; what
    /// was printed and bound before it stays.
    pub fn interpret<H: Fn(NumberOp) -> u32>(&mut self, statements: &Vec<Stmt>, host: &H) -> (r:
        RloxResult<()>)
        requires
            old(self).wf(),
            host_ready(*host),
        ensures
            final(self).wf(),
            ({
                let (res, m) = exec_all(arithmetic(*host), stmts_model(statements@), 0, old(self).machine());
                same_outcome(r, res, |u: ()| u) && final(self).machine() == m
            }),
    {
        proof {
            lemma_exec_all_len(arithmetic(*host), stmts_model(statements@), 0, self.machine());
        }
        self.execute_all(statements, host)
    }

    fn execute_all<H: Fn(NumberOp) -> u32>(&mut self, statements: &Vec<Stmt>, host: &H) -> (r:
        RloxResult<()>)
        requires
            old(self).environment.wf(),
            host_ready(*host),
        ensures
            ({
                let (res, m) = exec_all(arithmetic(*host), stmts_model(statements@), 0, old(self).machine());
                same_outcome(r, res, |u: ()| u) && final(self).machine() == m
            }),
        decreases statements, 1nat,
    {
        let ghost num = arithmetic(*host);
        let ghost ss = stmts_model(statements@);
        let mut i: usize = 0;
        while i < statements.len()
            invariant
                i <= statements@.len(),
                ss == stmts_model(statements@),
                num == arithmetic(*host),
                host_ready(*host),
                self.environment.wf(),
                exec_all(num, ss, 0, old(self).machine()) == exec_all(num, ss, i as int, self.machine()),
            decreases statements@.len() - i,
        {
            let ghost before = self.machine();
            proof {
                lemma_exec_len(num, ss[i as int], before);
            }
            match self.execute(&statements[i], host) {
                Ok(()) => {},
                Err(e) => {
                    return Err(e);
                },
            }
            i = i + 1;
        }
        Ok(())
    }

    fn execute<H: Fn(NumberOp) -> u32>(&mut self, statement: &Stmt, host: &H) -> (r: RloxResult<()>)
        requires
            old(self).environment.wf(),
            host_ready(*host),
        ensures
            ({
                let (res, m) = exec(arithmetic(*host), stmt_model(statement), old(self).machine());
                same_outcome(r, res, |u: ()| u) && final(self).machine() == m
            }),
        decreases statement, 0nat,
    {
        match statement {
            Stmt::Expression(expr) => match self.evaluate(expr, host) {
                Ok(_) => Ok(()),
                Err(e) => Err(e),
            },
            Stmt::Print(expr) => match self.evaluate(expr, host) {
                Ok(value) => {
                    let ghost before = self.output@;
                    self.output.push(value);
                    proof {
                        assert(values_of(self.output@) =~= values_of(before).push(self.output@.last()@));
                    }
                    Ok(())
                },
                Err(e) => Err(e),
            },
            Stmt::Var(id, init) => {
                let value = match init {
                    Some(expr) => match self.evaluate(expr, host) {
                        Ok(v) => v,
                        Err(e) => return Err(e),
                    },
                    None => Object::Nil,
                };
                proof {
                    if let Some(e) = init {
                        lemma_eval_len(arithmetic(*host), **e, old(self).environment@);
                    }
                }
                self.environment.define(id, value);
                Ok(())
            },
            Stmt::Block(body) => {
                self.environment.push_scope();
                let r = self.execute_all(body, host);
                proof {
                    lemma_exec_all_len(
                        arithmetic(*host),
                        stmts_model(body@),
                        0,
                        Machine { env: old(self).environment@.push(Map::empty()), printed: old(self).machine().printed },
                    );
                }
                self.environment.pop_scope();
                r
            },
        }
    }

    /// The value of `expr`; assignments in it update the scopes.
    pub fn evaluate<H: Fn(NumberOp) -> u32>(&mut self, expr: &Expr, host: &H) -> (r: RloxResult<Object>)
        requires
            old(self).machine().env.len() > 0,
            host_ready(*host),
        ensures
            ({
                let (res, env) = eval(arithmetic(*host), *expr, old(self).machine().env);
                same_outcome(r, res, |o: Object| o@) && final(self).machine() == (Machine {
                    env,
                    printed: old(self).machine().printed,
                })
            }),
            final(self).machine().env.len() == old(self).machine().env.len(),
        decreases expr,
    {
        proof {
            lemma_eval_len(arithmetic(*host), *expr, self.environment@);
        }
        match expr {
            Expr::Literal(lit) => Ok(literal_object(lit, host)),
            Expr::Grouping(inner) => self.evaluate(inner, host),
            Expr::Variable(id) => self.environment.get(id),
            Expr::Assign(id, value) => {
                let v = match self.evaluate(value, host) {
                    Ok(v) => v,
                    Err(e) => return Err(e),
                };
                proof {
                    lemma_assign_len(self.environment@, id.lexeme@, v@);
                }
                self.environment.assign(id, v)
            },
            Expr::Unary(op, operand, line) => {
                let v = match self.evaluate(operand, host) {
                    Ok(v) => v,
                    Err(e) => return Err(e),
                };
                unary_op(*op, v, *line)
            },
            Expr::Binary(left, op, right, line) => {
                let a = match self.evaluate(left, host) {
                    Ok(v) => v,
                    Err(e) => return Err(e),
                };
                let b = match self.evaluate(right, host) {
                    Ok(v) => v,
                    Err(e) => return Err(e),
                };
                binary_op(*op, a, b, *line, host)
            },
        }
    }
}

/// The runtime value of a literal; a number's digits go to the host.
pub fn literal_object<H: Fn(NumberOp) -> u32>(lit: &LiteralValue, host: &H) -> (r: Object)
    requires
        host_ready(*host),
    ensures
        r@ == literal_value(arithmetic(*host), *lit),
{
    match lit {
        LiteralValue::Number(text) => Object::Number(host(NumberOp::Literal(text.clone()))),
        LiteralValue::String(s) => Object::String(s.clone()),
        LiteralValue::True => Object::True,
        LiteralValue::False => Object::False,
        LiteralValue::Nil => Object::Nil,
    }
}

/// A unary operator applied to a value; `line` is the operator's line.
pub fn unary_op(op: UnaryOp, value: Object, line: usize) -> (r: RloxResult<Object>)
    ensures
        same_outcome(r, unary_value(op, value@, line), |o: Object| o@),
{
    match op {
        UnaryOp::Not => Ok(Object::from_bool(!value.is_truthy())),
        UnaryOp::Neg => match value {
            Object::Number(bits) => Ok(Object::Number(negate_number(bits))),
            _ => Err(Error::Runtime(line, String::from_str("Operand must be a number."))),
        },
    }
}

/// A binary operator applied to two values; `line` is the operator's line.
/// Arithmetic on two numbers is the host's; everything else is decided here.
pub fn binary_op<H: Fn(NumberOp) -> u32>(op: BinaryOp, left: Object, right: Object, line: usize, host: &H) -> (r:
    RloxResult<Object>)
    requires
        host_ready(*host),
    ensures
        same_outcome(r, binary_value(arithmetic(*host), op, left@, right@, line), |o: Object| o@),
{
    match op {
        BinaryOp::Plus => match (left, right) {
            (Object::Number(a), Object::Number(b)) => Ok(Object::Number(host(NumberOp::Add(a, b)))),
            (Object::String(a), Object::String(b)) => Ok(Object::String(concat_text(&a, &b))),
            _ => Err(Error::Runtime(line, String::from_str("Operands must be numbers or strings."))),
        },
        BinaryOp::Minus => match (left, right) {
            (Object::Number(a), Object::Number(b)) => Ok(Object::Number(host(NumberOp::Subtract(a, b)))),
            _ => Err(Error::Runtime(line, String::from_str("Operands must be numbers."))),
        },
        BinaryOp::Star => match (left, right) {
            (Object::Number(a), Object::Number(b)) => Ok(Object::Number(host(NumberOp::Multiply(a, b)))),
            _ => Err(Error::Runtime(line, String::from_str("Operands must be numbers."))),
        },
        BinaryOp::Slash => match (left, right) {
            (Object::Number(a), Object::Number(b)) => Ok(Object::Number(host(NumberOp::Divide(a, b)))),
            _ => Err(Error::Runtime(line, String::from_str("Operands must be numbers."))),
        },
        BinaryOp::Equal => Ok(Object::from_bool(left.equals(&right))),
        BinaryOp::NotEqual => Ok(Object::from_bool(!left.equals(&right))),
        _ => {
            let order: Option<Ordering> = match (&left, &right) {
                (Object::Number(a), Object::Number(b)) => compare_numbers(*a, *b),
                (Object::String(a), Object::String(b)) => Some(compare_text(a.as_str(), b.as_str())),
                _ => {
                    return Err(comparison_error(&left, &right, line));
                },
            };
            let holds = match op {
                BinaryOp::Greater => matches!(order, Some(Ordering::Greater)),
                BinaryOp::GreaterEqual => matches!(order, Some(Ordering::Greater) | Some(Ordering::Equal)),
                BinaryOp::Less => matches!(order, Some(Ordering::Less)),
                _ => matches!(order, Some(Ordering::Less) | Some(Ordering::Equal)),
            };
            Ok(Object::from_bool(holds))
        },
    }
}

/// The diagnostic for ordering two values that cannot be ordered.
fn comparison_error(left: &Object, right: &Object, line: usize) -> (r: Error)
    ensures
        r@ == runtime_error(line, msg_comparison(left@, right@)),
{
    let a = joined("Invalid comparison between types (left: ", left.shape());
    let b = joined(a.as_str(), ", right: ");
    let c = joined(b.as_str(), right.shape());
    let message = joined(c.as_str(), ").");
    Error::Runtime(line, message)
}

} // verus!

verus! {

/// Two runs that started from `m1` and `m2` ended in `n1` and `n2` in the same
/// scopes, each having appended the same values to what it had printed.
pub open spec fn runs_agree(m1: Machine, m2: Machine, n1: Machine, n2: Machine) -> bool {
    &&& n1.env == n2.env
    &&& n1.printed.len() >= m1.printed.len()
    &&& n2.printed.len() >= m2.printed.len()
    &&& n1.printed == m1.printed + n1.printed.skip(m1.printed.len() as int)
    &&& n2.printed == m2.printed + n2.printed.skip(m2.printed.len() as int)
    &&& n1.printed.skip(m1.printed.len() as int) == n2.printed.skip(m2.printed.len() as int)
}

proof fn lemma_agree_step(m1: Machine, m2: Machine, n1: Machine, n2: Machine, k1: Machine, k2: Machine)
    requires
        runs_agree(m1, m2, n1, n2),
        runs_agree(n1, n2, k1, k2),
    ensures
        runs_agree(m1, m2, k1, k2),
{
    let d1 = n1.printed.skip(m1.printed.len() as int);
    let e1 = k1.printed.skip(n1.printed.len() as int);
    let d2 = n2.printed.skip(m2.printed.len() as int);
    let e2 = k2.printed.skip(n2.printed.len() as int);
    assert(k1.printed =~= m1.printed + (d1 + e1));
    assert(k2.printed =~= m2.printed + (d2 + e2));
    assert(k1.printed.skip(m1.printed.len() as int) =~= d1 + e1);
    assert(k2.printed.skip(m2.printed.len() as int) =~= d2 + e2);
}

pub proof fn lemma_agree_same(m1: Machine, m2: Machine, env: Scopes)
    ensures
        runs_agree(
            m1,
            m2,
            Machine { env, printed: m1.printed },
            Machine { env, printed: m2.printed },
        ),
{
    assert(m1.printed + m1.printed.skip(m1.printed.len() as int) =~= m1.printed);
    assert(m2.printed + m2.printed.skip(m2.printed.len() as int) =~= m2.printed);
    assert(m1.printed.skip(m1.printed.len() as int) =~= m2.printed.skip(m2.printed.len() as int));
}

proof fn lemma_exec_agrees(num: spec_fn(NumberOp) -> u32, s: StmtModel, m1: Machine, m2: Machine)
    requires
        m1.env == m2.env,
    ensures
        exec(num, s, m1).0 == exec(num, s, m2).0,
        runs_agree(m1, m2, exec(num, s, m1).1, exec(num, s, m2).1),
    decreases s, 0nat,
{
    match s {
        StmtModel::Print(e) => {
            let (r, env1) = eval(num, e, m1.env);
            if let Ok(v) = r {
                let p1 = m1.printed.push(v);
                let p2 = m2.printed.push(v);
                assert(p1 =~= m1.printed + seq![v]);
                assert(p2 =~= m2.printed + seq![v]);
                assert(p1.skip(m1.printed.len() as int) =~= seq![v]);
                assert(p2.skip(m2.printed.len() as int) =~= seq![v]);
            } else {
                lemma_agree_same(m1, m2, env1);
            }
        },
        StmtModel::Expression(e) => {
            lemma_agree_same(m1, m2, eval(num, e, m1.env).1);
        },
        StmtModel::Var(id, init) => {
            lemma_agree_same(m1, m2, exec(num, s, m1).1.env);
        },
        StmtModel::Block(body) => {
            let b1 = Machine { env: m1.env.push(Map::empty()), printed: m1.printed };
            let b2 = Machine { env: m2.env.push(Map::empty()), printed: m2.printed };
            lemma_exec_all_agrees(num, body, 0, b1, b2);
        },
    }
}

proof fn lemma_exec_all_agrees(
    num: spec_fn(NumberOp) -> u32,
    ss: Seq<StmtModel>,
    i: int,
    m1: Machine,
    m2: Machine,
)
    requires
        m1.env == m2.env,
    ensures
        exec_all(num, ss, i, m1).0 == exec_all(num, ss, i, m2).0,
        runs_agree(m1, m2, exec_all(num, ss, i, m1).1, exec_all(num, ss, i, m2).1),
    decreases ss, ss.len() - i,
{
    if 0 <= i < ss.len() {
        lemma_exec_agrees(num, ss[i], m1, m2);
        let (r, n1) = exec(num, ss[i], m1);
        let n2 = exec(num, ss[i], m2).1;
        if r is Ok {
            lemma_exec_all_agrees(num, ss, i + 1, n1, n2);
            lemma_agree_step(m1, m2, n1, n2, exec_all(num, ss, i + 1, n1).1, exec_all(num, ss, i + 1, n2).1);
        }
    } else {
        lemma_agree_same(m1, m2, m1.env);
    }
}

/// Running statements depends on the scopes alone, never on what was printed
/// before: from two states with the same scopes, a run ends the same way, in
/// the same scopes, and appends the same values to each printed stream. So a
/// program run in fresh sessions prints the same output every time.
pub proof fn law_runs_depend_on_scopes_alone(
    num: spec_fn(NumberOp) -> u32,
    statements: Seq<StmtModel>,
    m1: Machine,
    m2: Machine,
)
    requires
        m1.env == m2.env,
    ensures
        exec_all(num, statements, 0, m1).0 == exec_all(num, statements, 0, m2).0,
        runs_agree(m1, m2, exec_all(num, statements, 0, m1).1, exec_all(num, statements, 0, m2).1),
{
    lemma_exec_all_agrees(num, statements, 0, m1, m2);
}

} // verus!
