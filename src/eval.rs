//! The evaluator: expressions to values and statements to effects, over a
//! stack of scopes.
use vstd::prelude::*;
use vstd::string::*;

use crate::ast::{
    bool_str, bool_text, stmts_view, BinaryKind, Expr, ExprV, Literal, LiteralV, Stmt, StmtV, UnaryKind,
};
use crate::env::{
    assign, declare, lemma_assign_len, lookup, Environment, EvaluationValue, ScopeV, ValueV,
};

verus! {

/// A request to the number system. The language's numbers are IEEE-754
/// doubles held as their bit patterns; this library computes with no
/// floating-point value itself and hands each numeric step to a function.
#[derive(Debug)]
pub enum NumberOp {
    /// The number a canonical number literal denotes.
    Literal(String),
    Negate(u64),
    /// Sum, difference, product or quotient, for `Addition`, `Subtraction`,
    /// `Multiplication` and `Division`.
    Apply(BinaryKind, u64, u64),
    /// Whether the relation holds, for `Less`, `LessEqual`, `Greater`,
    /// `GreaterEqual` and `Equality`.
    Compare(BinaryKind, u64, u64),
    /// The printed form of a number.
    Format(u64),
}

/// The answer of the number system to a `NumberOp`.
#[derive(Debug)]
pub enum NumberResult {
    Number(u64),
    Truth(bool),
    Text(String),
}

pub enum NumberOpV {
    Literal(Seq<char>),
    Negate(u64),
    Apply(BinaryKind, u64, u64),
    Compare(BinaryKind, u64, u64),
    Format(u64),
}

pub enum NumberResultV {
    Number(u64),
    Truth(bool),
    Text(Seq<char>),
}

impl View for NumberOp {
    type V = NumberOpV;

    open spec fn view(&self) -> NumberOpV {
        match self {
            NumberOp::Literal(t) => NumberOpV::Literal(t@),
            NumberOp::Negate(a) => NumberOpV::Negate(*a),
            NumberOp::Apply(op, a, b) => NumberOpV::Apply(*op, *a, *b),
            NumberOp::Compare(op, a, b) => NumberOpV::Compare(*op, *a, *b),
            NumberOp::Format(a) => NumberOpV::Format(*a),
        }
    }
}

impl View for NumberResult {
    type V = NumberResultV;

    open spec fn view(&self) -> NumberResultV {
        match self {
            NumberResult::Number(n) => NumberResultV::Number(*n),
            NumberResult::Truth(b) => NumberResultV::Truth(*b),
            NumberResult::Text(t) => NumberResultV::Text(t@),
        }
    }
}

/// A model of the number system: what it answers to each request.
pub type NumberModel = spec_fn(NumberOpV) -> NumberResultV;

/// The number system `f` answers as the model `m` does.
pub open spec fn agrees<F: Fn(NumberOp) -> NumberResult>(f: F, m: NumberModel) -> bool {
    forall|op: NumberOp, r: NumberResult| #[trigger] f.ensures((op,), r) ==> r@ == m(op@)
}

/// `f` can be asked anything.
pub open spec fn total<F: Fn(NumberOp) -> NumberResult>(f: F) -> bool {
    forall|op: NumberOp| #[trigger] f.requires((op,))
}

/// A number answer; an answer of another kind counts as 0.
pub open spec fn model_number(m: NumberModel, op: NumberOpV) -> u64 {
    match m(op) {
        NumberResultV::Number(n) => n,
        _ => 0,
    }
}

/// A truth answer; an answer of another kind counts as false.
pub open spec fn model_truth(m: NumberModel, op: NumberOpV) -> bool {
    match m(op) {
        NumberResultV::Truth(b) => b,
        _ => false,
    }
}

/// A text answer; an answer of another kind counts as empty.
pub open spec fn model_text(m: NumberModel, op: NumberOpV) -> Seq<char> {
    match m(op) {
        NumberResultV::Text(t) => t,
        _ => Seq::empty(),
    }
}

fn ask_number<F: Fn(NumberOp) -> NumberResult>(arith: &F, op: NumberOp) -> (r: u64)
    requires
        total(*arith),
    ensures
        forall|m: NumberModel| agrees(*arith, m) ==> r == model_number(m, op@),
{
    match arith(op) {
        NumberResult::Number(n) => n,
        _ => 0,
    }
}

fn ask_truth<F: Fn(NumberOp) -> NumberResult>(arith: &F, op: NumberOp) -> (r: bool)
    requires
        total(*arith),
    ensures
        forall|m: NumberModel| agrees(*arith, m) ==> r == model_truth(m, op@),
{
    match arith(op) {
        NumberResult::Truth(b) => b,
        _ => false,
    }
}

fn ask_text<F: Fn(NumberOp) -> NumberResult>(arith: &F, op: NumberOp) -> (r: String)
    requires
        total(*arith),
    ensures
        forall|m: NumberModel| agrees(*arith, m) ==> r@ == model_text(m, op@),
{
    match arith(op) {
        NumberResult::Text(t) => t,
        _ => String::new(),
    }
}

/// An error that aborts the statement being run.
#[derive(Debug)]
pub enum EvaluationError {
    MustBeNumber(usize),
    OperandsMustBeNumber(usize),
    UndefinedVariable(String),
}

pub enum EvalErrorV {
    MustBeNumber(usize),
    OperandsMustBeNumber(usize),
    UndefinedVariable(Seq<char>),
}

impl View for EvaluationError {
    type V = EvalErrorV;

    open spec fn view(&self) -> EvalErrorV {
        match self {
            EvaluationError::MustBeNumber(l) => EvalErrorV::MustBeNumber(*l),
            EvaluationError::OperandsMustBeNumber(l) => EvalErrorV::OperandsMustBeNumber(*l),
            EvaluationError::UndefinedVariable(n) => EvalErrorV::UndefinedVariable(n@),
        }
    }
}

/// Every value but `nil` and `false` is truthy.
pub open spec fn truthy(v: ValueV) -> bool {
    match v {
        ValueV::Nil => false,
        ValueV::Logical(b) => b,
        _ => true,
    }
}

/// Two values are equal when they have the same category and the same value.
pub open spec fn values_equal(m: NumberModel, a: ValueV, b: ValueV) -> bool {
    match (a, b) {
        (ValueV::Nil, ValueV::Nil) => true,
        (ValueV::Number(x), ValueV::Number(y)) => model_truth(
            m,
            NumberOpV::Compare(BinaryKind::Equality, x, y),
        ),
        (ValueV::Str(s), ValueV::Str(t)) => s == t,
        (ValueV::Logical(p), ValueV::Logical(q)) => p == q,
        _ => false,
    }
}

pub open spec fn unary_value(m: NumberModel, k: UnaryKind, v: ValueV, line: usize) -> Result<
    ValueV,
    EvalErrorV,
> {
    match k {
        UnaryKind::Negation => match v {
            ValueV::Number(x) => Ok(ValueV::Number(model_number(m, NumberOpV::Negate(x)))),
            _ => Err(EvalErrorV::MustBeNumber(line)),
        },
        UnaryKind::LogicalNot => Ok(ValueV::Logical(!truthy(v))),
    }
}

pub open spec fn is_arithmetic(op: BinaryKind) -> bool {
    op == BinaryKind::Addition || op == BinaryKind::Subtraction || op
        == BinaryKind::Multiplication || op == BinaryKind::Division
}

pub open spec fn binary_value(m: NumberModel, op: BinaryKind, l: ValueV, r: ValueV, line: usize) -> Result<
    ValueV,
    EvalErrorV,
> {
    if op == BinaryKind::Equality {
        Ok(ValueV::Logical(values_equal(m, l, r)))
    } else if op == BinaryKind::NotEquality {
        Ok(ValueV::Logical(!values_equal(m, l, r)))
    } else {
        match (l, r) {
            (ValueV::Number(x), ValueV::Number(y)) => if is_arithmetic(op) {
                Ok(ValueV::Number(model_number(m, NumberOpV::Apply(op, x, y))))
            } else {
                Ok(ValueV::Logical(model_truth(m, NumberOpV::Compare(op, x, y))))
            },
            (ValueV::Str(s), ValueV::Str(t)) => if op == BinaryKind::Addition {
                Ok(ValueV::Str(s + t))
            } else {
                Err(EvalErrorV::OperandsMustBeNumber(line))
            },
            _ => Err(EvalErrorV::OperandsMustBeNumber(line)),
        }
    }
}

pub open spec fn literal_value(m: NumberModel, l: LiteralV) -> ValueV {
    match l {
        LiteralV::Str(s) => ValueV::Str(s),
        LiteralV::Number(t) => ValueV::Number(model_number(m, NumberOpV::Literal(t))),
        LiteralV::Logical(b) => ValueV::Logical(b),
        LiteralV::Nil => ValueV::Nil,
    }
}

/// The value of `e` in the scopes `env`, and the scopes after its assignments.
pub open spec fn eval(m: NumberModel, e: ExprV, env: Seq<ScopeV>) -> (Result<ValueV, EvalErrorV>, Seq<
    ScopeV,
>)
    decreases e,
{
    match e {
        ExprV::Literal(l) => (Ok(literal_value(m, l)), env),
        ExprV::Unary(k, x, line) => {
            let (r, env1) = eval(m, *x, env);
            match r {
                Ok(v) => (unary_value(m, k, v, line), env1),
                Err(err) => (Err(err), env1),
            }
        },
        ExprV::Binary(op, l, r, line) => {
            let (lr, env1) = eval(m, *l, env);
            match lr {
                Ok(lv) => {
                    let (rr, env2) = eval(m, *r, env1);
                    match rr {
                        Ok(rv) => (binary_value(m, op, lv, rv, line), env2),
                        Err(err) => (Err(err), env2),
                    }
                },
                Err(err) => (Err(err), env1),
            }
        },
        ExprV::Group(x) => eval(m, *x, env),
        ExprV::Ident(n) => match lookup(env, n) {
            Some(v) => (Ok(v), env),
            None => (Err(EvalErrorV::UndefinedVariable(n)), env),
        },
        ExprV::Assignment(n, x) => {
            let (r, env1) = eval(m, *x, env);
            match r {
                Ok(v) => match assign(env1, n, v) {
                    Some(env2) => (Ok(v), env2),
                    None => (Err(EvalErrorV::UndefinedVariable(n)), env1),
                },
                Err(err) => (Err(err), env1),
            }
        },
    }
}

pub proof fn lemma_eval_len(m: NumberModel, e: ExprV, env: Seq<ScopeV>)
    ensures
        eval(m, e, env).1.len() == env.len(),
    decreases e,
{
    match e {
        ExprV::Unary(_, x, _) => lemma_eval_len(m, *x, env),
        ExprV::Binary(_, l, r, _) => {
            lemma_eval_len(m, *l, env);
            lemma_eval_len(m, *r, eval(m, *l, env).1);
        },
        ExprV::Group(x) => lemma_eval_len(m, *x, env),
        ExprV::Assignment(n, x) => {
            lemma_eval_len(m, *x, env);
            let (r, env1) = eval(m, *x, env);
            if r is Ok {
                lemma_assign_len(env1, n, r->Ok_0);
            }
        },
        _ => {},
    }
}

/// The result of an evaluation matches the model's.
pub open spec fn matches_value(
    r: Result<EvaluationValue, EvaluationError>,
    s: Result<ValueV, EvalErrorV>,
) -> bool {
    match r {
        Ok(v) => s == Ok::<ValueV, EvalErrorV>(v@),
        Err(e) => s == Err::<ValueV, EvalErrorV>(e@),
    }
}

fn truthy_exec(v: &EvaluationValue) -> (r: bool)
    ensures
        r == truthy(v@),
{
    match v {
        EvaluationValue::Nil => false,
        EvaluationValue::Logical(b) => *b,
        _ => true,
    }
}

fn values_equal_exec<F: Fn(NumberOp) -> NumberResult>(
    arith: &F,
    a: &EvaluationValue,
    b: &EvaluationValue,
) -> (r: bool)
    requires
        total(*arith),
    ensures
        forall|m: NumberModel| agrees(*arith, m) ==> r == values_equal(m, a@, b@),
{
    match (a, b) {
        (EvaluationValue::Nil, EvaluationValue::Nil) => true,
        (EvaluationValue::Number(x), EvaluationValue::Number(y)) => ask_truth(
            arith,
            NumberOp::Compare(BinaryKind::Equality, *x, *y),
        ),
        (EvaluationValue::Str(s), EvaluationValue::Str(t)) => *s == *t,
        (EvaluationValue::Logical(p), EvaluationValue::Logical(q)) => *p == *q,
        _ => false,
    }
}

fn concat(s: &String, t: &String) -> (r: String)
    ensures
        r@ == s@ + t@,
{
    let mut r = s.clone();
    r.append(t.as_str());
    r
}

/// The value of a unary operator applied to `v`.
pub fn apply_unary<F: Fn(NumberOp) -> NumberResult>(
    arith: &F,
    k: UnaryKind,
    v: EvaluationValue,
    line: usize,
) -> (r: Result<EvaluationValue, EvaluationError>)
    requires
        total(*arith),
    ensures
        forall|m: NumberModel| agrees(*arith, m) ==> matches_value(r, unary_value(m, k, v@, line)),
{
    match k {
        UnaryKind::Negation => match v {
            EvaluationValue::Number(x) => Ok(
                EvaluationValue::Number(ask_number(arith, NumberOp::Negate(x))),
            ),
            _ => Err(EvaluationError::MustBeNumber(line)),
        },
        UnaryKind::LogicalNot => Ok(EvaluationValue::Logical(!truthy_exec(&v))),
    }
}

/// The value of a binary operator applied to `l` and `r`.
pub fn apply_binary<F: Fn(NumberOp) -> NumberResult>(
    arith: &F,
    op: BinaryKind,
    l: EvaluationValue,
    r: EvaluationValue,
    line: usize,
) -> (res: Result<EvaluationValue, EvaluationError>)
    requires
        total(*arith),
    ensures
        forall|m: NumberModel| agrees(*arith, m) ==> matches_value(res, binary_value(m, op, l@, r@, line)),
{
    if op == BinaryKind::Equality {
        return Ok(EvaluationValue::Logical(values_equal_exec(arith, &l, &r)));
    }
    if op == BinaryKind::NotEquality {
        return Ok(EvaluationValue::Logical(!values_equal_exec(arith, &l, &r)));
    }
    match (l, r) {
        (EvaluationValue::Number(x), EvaluationValue::Number(y)) => {
            if op == BinaryKind::Addition || op == BinaryKind::Subtraction || op
                == BinaryKind::Multiplication || op == BinaryKind::Division {
                Ok(EvaluationValue::Number(ask_number(arith, NumberOp::Apply(op, x, y))))
            } else {
                Ok(EvaluationValue::Logical(ask_truth(arith, NumberOp::Compare(op, x, y))))
            }
        },
        (EvaluationValue::Str(s), EvaluationValue::Str(t)) => {
            if op == BinaryKind::Addition {
                Ok(EvaluationValue::Str(concat(&s, &t)))
            } else {
                Err(EvaluationError::OperandsMustBeNumber(line))
            }
        },
        _ => Err(EvaluationError::OperandsMustBeNumber(line)),
    }
}

impl Literal {
    /// The value the literal denotes.
    pub fn value<F: Fn(NumberOp) -> NumberResult>(&self, arith: &F) -> (r: EvaluationValue)
        requires
            total(*arith),
        ensures
            forall|m: NumberModel| agrees(*arith, m) ==> r@ == literal_value(m, self@),
    {
        match self {
            Literal::Str(s) => EvaluationValue::Str(s.clone()),
            Literal::Number(t) => EvaluationValue::Number(
                ask_number(arith, NumberOp::Literal(t.clone())),
            ),
            Literal::Logical(b) => EvaluationValue::Logical(*b),
            Literal::Nil => EvaluationValue::Nil,
        }
    }
}

impl Expr {
    /// Evaluates the expression in `env`, asking `arith` for each numeric
    /// step; assignments in it change `env`. For every model of the number
    /// system that `arith` agrees with, the result and the scopes after are
    /// those of `eval` under that model.
    pub fn evaluate<F: Fn(NumberOp) -> NumberResult>(&self, arith: &F, env: &mut Environment) -> (r: Result<
        EvaluationValue,
        EvaluationError,
    >)
        requires
            old(env).wf(),
            total(*arith),
        ensures
            final(env).wf(),
            final(env)@.len() == old(env)@.len(),
            forall|m: NumberModel| #[trigger] agrees(*arith, m) ==> {
                &&& final(env)@ == eval(m, self@, old(env)@).1
                &&& matches_value(r, eval(m, self@, old(env)@).0)
            },
        decreases self,
    {
        proof {
            env.lemma_wf_len();
        }
        match self {
            Expr::Literal(l) => Ok(l.value(arith)),
            Expr::Unary(k, x, line) => {
                match x.evaluate(arith, env) {
                    Ok(v) => apply_unary(arith, *k, v, *line),
                    Err(e) => Err(e),
                }
            },
            Expr::Binary { op, left, right, line } => {
                let lv = match left.evaluate(arith, env) {
                    Ok(v) => v,
                    Err(e) => return Err(e),
                };
                let rv = match right.evaluate(arith, env) {
                    Ok(v) => v,
                    Err(e) => return Err(e),
                };
                apply_binary(arith, *op, lv, rv, *line)
            },
            Expr::Group(x) => x.evaluate(arith, env),
            Expr::Ident(n) => match env.get(&n.0) {
                Some(v) => Ok(v),
                None => Err(EvaluationError::UndefinedVariable(n.0.clone())),
            },
            Expr::Assignment(n, x) => {
                let v = match x.evaluate(arith, env) {
                    Ok(v) => v,
                    Err(e) => return Err(e),
                };
                let result = v.copy();
                if env.assign(n.0.clone(), v) {
                    Ok(result)
                } else {
                    Err(EvaluationError::UndefinedVariable(n.0.clone()))
                }
            },
        }
    }
}

/// The printed form of a value: numbers as the number system prints them,
/// strings without quotes, `true`, `false` and `nil`.
pub open spec fn value_text(m: NumberModel, v: ValueV) -> Seq<char> {
    match v {
        ValueV::Nil => "nil"@,
        ValueV::Number(x) => model_text(m, NumberOpV::Format(x)),
        ValueV::Str(s) => s,
        ValueV::Logical(b) => bool_text(b),
    }
}

/// The effect of running statements: ok or the error that stopped them, the
/// scopes after them, and what they printed.
pub struct Effect {
    pub result: Result<(), EvalErrorV>,
    pub env: Seq<ScopeV>,
    pub out: Seq<char>,
}

/// The effect of the statement `s` run in `env`. A block runs in a fresh
/// innermost scope, which is dropped when the block ends, by error or not.
pub open spec fn exec_stmt(m: NumberModel, s: StmtV, env: Seq<ScopeV>) -> Effect
    decreases s, 0int,
{
    match s {
        StmtV::Expr(e) => {
            let (r, env1) = eval(m, e, env);
            match r {
                Ok(_) => Effect { result: Ok(()), env: env1, out: Seq::empty() },
                Err(err) => Effect { result: Err(err), env: env1, out: Seq::empty() },
            }
        },
        StmtV::Print(e) => {
            let (r, env1) = eval(m, e, env);
            match r {
                Ok(v) => Effect { result: Ok(()), env: env1, out: value_text(m, v) + "\n"@ },
                Err(err) => Effect { result: Err(err), env: env1, out: Seq::empty() },
            }
        },
        StmtV::Declaration(n, e) => {
            let (r, env1) = eval(m, e, env);
            match r {
                Ok(v) => Effect { result: Ok(()), env: declare(env1, n, v), out: Seq::empty() },
                Err(err) => Effect { result: Err(err), env: env1, out: Seq::empty() },
            }
        },
        StmtV::Block(v) => {
            let b = exec_block(m, v, 0, env.push(Map::empty()));
            Effect { result: b.result, env: b.env.drop_last(), out: b.out }
        },
    }
}

/// The effect of the statements of `v` from the `i`-th on, until one fails.
pub open spec fn exec_block(m: NumberModel, v: Seq<StmtV>, i: int, env: Seq<ScopeV>) -> Effect
    decreases v, v.len() - i,
{
    if i < 0 || i >= v.len() {
        Effect { result: Ok(()), env, out: Seq::empty() }
    } else {
        let a = exec_stmt(m, v[i], env);
        if a.result is Err {
            a
        } else {
            let b = exec_block(m, v, i + 1, a.env);
            Effect { result: b.result, env: b.env, out: a.out + b.out }
        }
    }
}

pub proof fn lemma_exec_len(m: NumberModel, s: StmtV, env: Seq<ScopeV>)
    requires
        env.len() >= 1,
    ensures
        exec_stmt(m, s, env).env.len() == env.len(),
    decreases s, 0int,
{
    match s {
        StmtV::Expr(e) => lemma_eval_len(m, e, env),
        StmtV::Print(e) => lemma_eval_len(m, e, env),
        StmtV::Declaration(n, e) => lemma_eval_len(m, e, env),
        StmtV::Block(v) => lemma_exec_block_len(m, v, 0, env.push(Map::empty())),
    }
}

pub proof fn lemma_exec_block_len(m: NumberModel, v: Seq<StmtV>, i: int, env: Seq<ScopeV>)
    requires
        env.len() >= 1,
    ensures
        exec_block(m, v, i, env).env.len() == env.len(),
    decreases v, v.len() - i,
{
    if 0 <= i < v.len() {
        lemma_exec_len(m, v[i], env);
        let a = exec_stmt(m, v[i], env);
        if a.result is Ok {
            lemma_exec_block_len(m, v, i + 1, a.env);
        }
    }
}

/// The printed form of a value.
pub fn value_to_text<F: Fn(NumberOp) -> NumberResult>(arith: &F, v: &EvaluationValue) -> (r: String)
    requires
        total(*arith),
    ensures
        forall|m: NumberModel| agrees(*arith, m) ==> r@ == value_text(m, v@),
{
    match v {
        EvaluationValue::Nil => String::from_str("nil"),
        EvaluationValue::Number(x) => ask_text(arith, NumberOp::Format(*x)),
        EvaluationValue::Str(s) => s.clone(),
        EvaluationValue::Logical(b) => String::from_str(bool_str(*b)),
    }
}

/// The run of a statement matches the model's effect.
pub open spec fn matches_effect(
    r: Result<(), EvaluationError>,
    env: Seq<ScopeV>,
    out: Seq<char>,
    out0: Seq<char>,
    x: Effect,
) -> bool {
    &&& env == x.env
    &&& out == out0 + x.out
    &&& match r {
        Ok(_) => x.result is Ok,
        Err(e) => x.result == Err::<(), EvalErrorV>(e@),
    }
}

impl Stmt {
    /// Runs the statement in `env`, appending what it prints to `out`.
    pub fn run<F: Fn(NumberOp) -> NumberResult>(
        &self,
        arith: &F,
        env: &mut Environment,
        out: &mut String,
    ) -> (r: Result<(), EvaluationError>)
        requires
            old(env).wf(),
            total(*arith),
        ensures
            final(env).wf(),
            final(env)@.len() == old(env)@.len(),
            final(out)@.len() >= old(out)@.len(),
            final(out)@.subrange(0, old(out)@.len() as int) == old(out)@,
            forall|m: NumberModel| #[trigger] agrees(*arith, m) ==> matches_effect(
                r,
                final(env)@,
                final(out)@,
                old(out)@,
                exec_stmt(m, self@, old(env)@),
            ),
        decreases self, 0int,
    {
        proof {
            env.lemma_wf_len();
        }
        let ghost out0 = out@;
        let ghost e0 = env@;
        match self {
            Stmt::Expr(e) => {
                let r = e.evaluate(arith, env);
                assert(out@ =~= out0 + Seq::<char>::empty());
                match r {
                    Ok(_) => Ok(()),
                    Err(err) => Err(err),
                }
            },
            Stmt::Print(e) => match e.evaluate(arith, env) {
                Ok(v) => {
                    let text = value_to_text(arith, &v);
                    out.append(text.as_str());
                    out.append("\n");
                    assert(out@ =~= out0 + (text@ + "\n"@));
                    assert(out@.subrange(0, out0.len() as int) =~= out0);
                    Ok(())
                },
                Err(err) => {
                    assert(out@ =~= out0 + Seq::<char>::empty());
                    Err(err)
                },
            },
            Stmt::Declaration(n, e) => match e.evaluate(arith, env) {
                Ok(v) => {
                    proof {
                        env.lemma_wf_len();
                    }
                    let ghost vv = v@;
                    let ghost e1 = env@;
                    env.declare(n.0.clone(), v);
                    assert(out@ =~= out0 + Seq::<char>::empty());
                    assert(env@ == declare(e1, n.0@, vv));
                    Ok(())
                },
                Err(err) => {
                    assert(out@ =~= out0 + Seq::<char>::empty());
                    Err(err)
                },
            },
            Stmt::Block(v) => {
                proof {
                    let items = match self@ {
                        StmtV::Block(items) => items,
                        _ => Seq::empty(),
                    };
                    assert(items =~= stmts_view(v@));
                }
                run_block(arith, v, env, out)
            },
        }
    }
}

/// Runs the statements of a block in a fresh innermost scope, then drops it.
fn run_block<F: Fn(NumberOp) -> NumberResult>(
    arith: &F,
    v: &Vec<Stmt>,
    env: &mut Environment,
    out: &mut String,
) -> (r: Result<(), EvaluationError>)
    requires
        old(env).wf(),
        total(*arith),
    ensures
        final(env).wf(),
        final(env)@.len() == old(env)@.len(),
        final(out)@.len() >= old(out)@.len(),
        final(out)@.subrange(0, old(out)@.len() as int) == old(out)@,
        forall|m: NumberModel| #[trigger] agrees(*arith, m) ==> matches_effect(
            r,
            final(env)@,
            final(out)@,
            old(out)@,
            exec_stmt(m, StmtV::Block(stmts_view(v@)), old(env)@),
        ),
    decreases v, 1int,
{
    let ghost items = stmts_view(v@);
    let ghost out0 = out@;
    let ghost e0 = env@;
    proof {
        env.lemma_wf_len();
    }
    env.push_scope();
    let ghost e1 = env@;
    let mut i: usize = 0;
    assert(out@.subrange(0, out0.len() as int) =~= out0);
    assert(out@.subrange(out0.len() as int, out@.len() as int) =~= Seq::<char>::empty());
    while i < v.len()
        invariant
            env.wf(),
            total(*arith),
            0 <= i <= v@.len(),
            items == stmts_view(v@),
            e1 == e0.push(Map::empty()),
            e0 == old(env)@,
            out0 == old(out)@,
            e0.len() >= 1,
            env@.len() == e1.len(),
            out@.len() >= out0.len(),
            out@.subrange(0, out0.len() as int) == out0,
            forall|m: NumberModel| #[trigger] agrees(*arith, m) ==> {
                let whole = exec_block(m, items, 0, e1);
                let rest = exec_block(m, items, i as int, env@);
                &&& whole.result == rest.result
                &&& whole.env == rest.env
                &&& whole.out == out@.subrange(out0.len() as int, out@.len() as int) + rest.out
            },
        decreases v.len() - i,
    {
        proof {
            vstd::std_specs::vec::axiom_vec_index_decreases(*v, i as int);
            env.lemma_wf_len();
        }
        let ghost before = env@;
        let ghost out_before = out@;
        let res = v[i].run(arith, env, out);
        proof {
            env.lemma_wf_len();
            assert(out@.subrange(0, out0.len() as int) =~= out_before.subrange(0, out0.len() as int));
        }
        match res {
            Ok(()) => {
                proof {
                    assert forall|m: NumberModel| #[trigger] agrees(*arith, m) implies {
                        let whole = exec_block(m, items, 0, e1);
                        let rest = exec_block(m, items, i + 1, env@);
                        &&& whole.result == rest.result
                        &&& whole.env == rest.env
                        &&& whole.out == out@.subrange(out0.len() as int, out@.len() as int)
                            + rest.out
                    } by {
                        let a = exec_stmt(m, items[i as int], before);
                        let rest = exec_block(m, items, i + 1, env@);
                        assert(out@ == out_before + a.out);
                        assert(out@.subrange(out0.len() as int, out@.len() as int) =~= out_before.subrange(
                            out0.len() as int,
                            out_before.len() as int,
                        ) + a.out);
                        assert(out_before.subrange(out0.len() as int, out_before.len() as int) + (
                        a.out + rest.out) =~= out_before.subrange(
                            out0.len() as int,
                            out_before.len() as int,
                        ) + a.out + rest.out);
                    }
                }
                i = i + 1;
            },
            Err(err) => {
                proof {
                    assert forall|m: NumberModel| #[trigger] agrees(*arith, m) implies {
                        let whole = exec_block(m, items, 0, e1);
                        &&& whole.result == Err::<(), EvalErrorV>(err@)
                        &&& whole.env == env@
                        &&& out@ == out0 + whole.out
                    } by {
                        let a = exec_stmt(m, items[i as int], before);
                        assert(exec_block(m, items, i as int, before) == a);
                        assert(out@ == out_before + a.out);
                        assert(out@ =~= out0 + (out_before.subrange(
                            out0.len() as int,
                            out_before.len() as int,
                        ) + a.out));
                    }
                }
                proof {
                    assert(out@.subrange(0, out0.len() as int) =~= out0);
                }
                env.pop_scope();
                return Err(err);
            },
        }
    }
    proof {
        assert forall|m: NumberModel| #[trigger] agrees(*arith, m) implies {
            let whole = exec_block(m, items, 0, e1);
            &&& whole.result is Ok
            &&& whole.env == env@
            &&& out@ == out0 + whole.out
        } by {
            assert(out@ =~= out0 + out@.subrange(out0.len() as int, out@.len() as int));
            assert(out@.subrange(out0.len() as int, out@.len() as int) + Seq::<char>::empty()
                =~= out@.subrange(out0.len() as int, out@.len() as int));
        }
    }
    env.pop_scope();
    Ok(())
}

/// `e` assigns no variable.
pub open spec fn assigns_nothing(e: ExprV) -> bool
    decreases e,
{
    match e {
        ExprV::Literal(_) => true,
        ExprV::Unary(_, x, _) => assigns_nothing(*x),
        ExprV::Binary(_, l, r, _) => assigns_nothing(*l) && assigns_nothing(*r),
        ExprV::Group(x) => assigns_nothing(*x),
        ExprV::Ident(_) => true,
        ExprV::Assignment(_, _) => false,
    }
}

/// `s` assigns no variable: it may declare and print, but sets no binding
/// it did not make.
pub open spec fn stmt_assigns_nothing(s: StmtV) -> bool
    decreases s, 0int,
{
    match s {
        StmtV::Expr(e) => assigns_nothing(e),
        StmtV::Print(e) => assigns_nothing(e),
        StmtV::Declaration(_, e) => assigns_nothing(e),
        StmtV::Block(v) => stmts_assign_nothing(v, 0),
    }
}

pub open spec fn stmts_assign_nothing(v: Seq<StmtV>, i: int) -> bool
    decreases v, v.len() - i,
{
    if i < 0 || i >= v.len() {
        true
    } else {
        stmt_assigns_nothing(v[i]) && stmts_assign_nothing(v, i + 1)
    }
}

pub proof fn lemma_eval_keeps_scopes(m: NumberModel, e: ExprV, env: Seq<ScopeV>)
    requires
        assigns_nothing(e),
    ensures
        eval(m, e, env).1 == env,
    decreases e,
{
    match e {
        ExprV::Unary(_, x, _) => lemma_eval_keeps_scopes(m, *x, env),
        ExprV::Binary(_, l, r, _) => {
            lemma_eval_keeps_scopes(m, *l, env);
            lemma_eval_keeps_scopes(m, *r, env);
        },
        ExprV::Group(x) => lemma_eval_keeps_scopes(m, *x, env),
        _ => {},
    }
}

/// A statement that assigns nothing changes at most the innermost scope.
pub proof fn lemma_exec_keeps_outer(m: NumberModel, s: StmtV, env: Seq<ScopeV>)
    requires
        env.len() >= 1,
        stmt_assigns_nothing(s),
    ensures
        exec_stmt(m, s, env).env.len() == env.len(),
        exec_stmt(m, s, env).env.drop_last() == env.drop_last(),
    decreases s, 0int,
{
    match s {
        StmtV::Expr(e) => lemma_eval_keeps_scopes(m, e, env),
        StmtV::Print(e) => lemma_eval_keeps_scopes(m, e, env),
        StmtV::Declaration(n, e) => {
            lemma_eval_keeps_scopes(m, e, env);
            let (r, env1) = eval(m, e, env);
            if r is Ok {
                assert(declare(env1, n, r->Ok_0).drop_last() =~= env.drop_last());
            }
        },
        StmtV::Block(v) => {
            let inner = env.push(Map::empty());
            lemma_block_keeps_outer(m, v, 0, inner);
            assert(inner.drop_last() =~= env);
        },
    }
}

pub proof fn lemma_block_keeps_outer(m: NumberModel, v: Seq<StmtV>, i: int, env: Seq<ScopeV>)
    requires
        env.len() >= 1,
        stmts_assign_nothing(v, i),
    ensures
        exec_block(m, v, i, env).env.len() == env.len(),
        exec_block(m, v, i, env).env.drop_last() == env.drop_last(),
    decreases v, v.len() - i,
{
    if 0 <= i < v.len() {
        lemma_exec_keeps_outer(m, v[i], env);
        let a = exec_stmt(m, v[i], env);
        if a.result is Ok {
            lemma_block_keeps_outer(m, v, i + 1, a.env);
        }
    }
}

/// Block scoping: what a block declares is not visible after its closing
/// brace. A block that assigns no variable leaves the scopes exactly as they
/// were before it, so every name has the value it had before the block.
pub proof fn lemma_block_scoping(m: NumberModel, v: Seq<StmtV>, env: Seq<ScopeV>, name: Seq<char>)
    requires
        env.len() >= 1,
        stmts_assign_nothing(v, 0),
    ensures
        exec_stmt(m, StmtV::Block(v), env).env == env,
        lookup(exec_stmt(m, StmtV::Block(v), env).env, name) == lookup(env, name),
{
    let inner = env.push(Map::empty());
    lemma_block_keeps_outer(m, v, 0, inner);
    assert(inner.drop_last() =~= env);
}

} // verus!
