//! The four ways of running a source text: as tokens, as syntax trees, as
//! values of expression statements, or as a program. Each gives what goes to
//! standard output, what goes to standard error, and the exit code.
use vstd::prelude::*;
use vstd::string::*;

use crate::ast::{stmt_text, Stmt, StmtV};
use crate::env::{Environment, ScopeV};
use crate::eval::{
    agrees, eval, exec_stmt, total, value_text, value_to_text, Effect, EvalErrorV,
    EvaluationError, NumberModel, NumberOp, NumberResult,
};
use crate::lexer::{scan_all, Lexer, LexerError};
use crate::parser::{parse_stmt, tok_at, Parsed, Parser, ParserError, ParserErrorV};
use crate::tokens::{token_line, TokenKind, TokenView};

verus! {

pub open spec fn digit_text(d: nat) -> Seq<char> {
    if d == 0 {
        "0"@
    } else if d == 1 {
        "1"@
    } else if d == 2 {
        "2"@
    } else if d == 3 {
        "3"@
    } else if d == 4 {
        "4"@
    } else if d == 5 {
        "5"@
    } else if d == 6 {
        "6"@
    } else if d == 7 {
        "7"@
    } else if d == 8 {
        "8"@
    } else {
        "9"@
    }
}

/// The decimal numeral of `n`.
pub open spec fn decimal(n: nat) -> Seq<char>
    decreases n,
{
    if n < 10 {
        digit_text(n)
    } else {
        decimal(n / 10) + digit_text(n % 10)
    }
}

fn digit_str(d: usize) -> (r: &'static str)
    requires
        d < 10,
    ensures
        r@ == digit_text(d as nat),
{
    match d {
        0 => "0",
        1 => "1",
        2 => "2",
        3 => "3",
        4 => "4",
        5 => "5",
        6 => "6",
        7 => "7",
        8 => "8",
        _ => "9",
    }
}

/// The decimal numeral of `n`.
pub fn decimal_text(n: usize) -> (r: String)
    ensures
        r@ == decimal(n as nat),
    decreases n,
{
    if n < 10 {
        String::from_str(digit_str(n))
    } else {
        let mut r = decimal_text(n / 10);
        r.append(digit_str(n % 10));
        r
    }
}

/// Relies on std's `char::to_string`: the string of the one character `c`.
#[verifier::external_body]
fn char_text(c: char) -> (r: String)
    ensures
        r@ == seq![c],
{
    c.to_string()
}

pub open spec fn line_prefix(line: usize) -> Seq<char> {
    "[line "@ + decimal(line as nat) + "] Error: "@
}

fn line_prefix_text(line: usize) -> (r: String)
    ensures
        r@ == line_prefix(line),
{
    let mut r = String::from_str("[line ");
    let d = decimal_text(line);
    r.append(d.as_str());
    r.append("] Error: ");
    r
}

/// The diagnostic for a lexical error.
pub open spec fn lexer_message(e: LexerError) -> Seq<char> {
    match e {
        LexerError::UnexpectedCharacter { line, ch } => line_prefix(line)
            + "Unexpected character: "@ + seq![ch],
        LexerError::UnterminatedString(line) => line_prefix(line) + "Unterminated string."@,
    }
}

/// The diagnostic for a parse error.
pub open spec fn parser_message(e: ParserErrorV) -> Seq<char> {
    match e {
        ParserErrorV::ExpectedExpression(line, lexeme) => line_prefix(line)
            + "Expected expression: "@ + lexeme,
        ParserErrorV::LexerError(l) => lexer_message(l),
        ParserErrorV::UnmatchedParens(line) => line_prefix(line) + "Unmatched parens"@,
        ParserErrorV::UnexpectedToken(line) => line_prefix(line) + "Unexpected token"@,
    }
}

/// The diagnostic for a runtime error.
pub open spec fn runtime_message(e: EvalErrorV) -> Seq<char> {
    match e {
        EvalErrorV::MustBeNumber(line) => "Operand must be a number.\n[line "@ + decimal(
            line as nat,
        ) + "]"@,
        EvalErrorV::OperandsMustBeNumber(line) => "Operands must be a number.\n[line "@
            + decimal(line as nat) + "]"@,
        EvalErrorV::UndefinedVariable(n) => "Undefined variable '"@ + n + "'."@,
    }
}

impl LexerError {
    /// The diagnostic for this error.
    pub fn message(&self) -> (r: String)
        ensures
            r@ == lexer_message(*self),
    {
        match self {
            LexerError::UnexpectedCharacter { line, ch } => {
                let mut r = line_prefix_text(*line);
                r.append("Unexpected character: ");
                let c = char_text(*ch);
                r.append(c.as_str());
                r
            },
            LexerError::UnterminatedString(line) => {
                let mut r = line_prefix_text(*line);
                r.append("Unterminated string.");
                r
            },
        }
    }
}

impl ParserError {
    /// The diagnostic for this error.
    pub fn message(&self) -> (r: String)
        ensures
            r@ == parser_message(self@),
    {
        match self {
            ParserError::ExpectedExpression { line, lexeme } => {
                let mut r = line_prefix_text(*line);
                r.append("Expected expression: ");
                r.append(lexeme.as_str());
                r
            },
            ParserError::LexerError(l) => l.message(),
            ParserError::UnmatchedParens(line) => {
                let mut r = line_prefix_text(*line);
                r.append("Unmatched parens");
                r
            },
            ParserError::UnexpectedToken(line) => {
                let mut r = line_prefix_text(*line);
                r.append("Unexpected token");
                r
            },
        }
    }
}

impl EvaluationError {
    /// The diagnostic for this error.
    pub fn message(&self) -> (r: String)
        ensures
            r@ == runtime_message(self@),
    {
        match self {
            EvaluationError::MustBeNumber(line) => {
                let mut r = String::from_str("Operand must be a number.\n[line ");
                let d = decimal_text(*line);
                r.append(d.as_str());
                r.append("]");
                r
            },
            EvaluationError::OperandsMustBeNumber(line) => {
                let mut r = String::from_str("Operands must be a number.\n[line ");
                let d = decimal_text(*line);
                r.append(d.as_str());
                r.append("]");
                r
            },
            EvaluationError::UndefinedVariable(n) => {
                let mut r = String::from_str("Undefined variable '");
                r.append(n.as_str());
                r.append("'.");
                r
            },
        }
    }
}

/// What a run gives: standard output, standard error and the exit code.
pub struct Outcome {
    pub stdout: String,
    pub stderr: String,
    pub code: u8,
}

pub struct Report {
    pub out: Seq<char>,
    pub err: Seq<char>,
    pub code: u8,
}

impl View for Outcome {
    type V = Report;

    open spec fn view(&self) -> Report {
        Report { out: self.stdout@, err: self.stderr@, code: self.code }
    }
}

/// The printed forms of tokens, one per line.
pub open spec fn token_lines(t: Seq<TokenView>) -> Seq<char>
    decreases t.len(),
{
    if t.len() == 0 {
        Seq::empty()
    } else {
        token_lines(t.drop_last()) + token_line(t.last()) + "\n"@
    }
}

/// The diagnostics for lexical errors, one per line.
pub open spec fn lexer_messages(e: Seq<LexerError>) -> Seq<char>
    decreases e.len(),
{
    if e.len() == 0 {
        Seq::empty()
    } else {
        lexer_messages(e.drop_last()) + lexer_message(e.last()) + "\n"@
    }
}

/// The exit code for a source text with the lexical errors `e`.
pub open spec fn lex_code(e: Seq<LexerError>) -> u8 {
    if e.len() > 0 {
        65
    } else {
        0
    }
}

/// `tokenize`: every token, then 65 where the lexer met an error.
pub open spec fn tokenize_report(src: Seq<char>) -> Report {
    let all = scan_all(src, 0, 1);
    Report { out: token_lines(all.tokens), err: lexer_messages(all.errors), code: lex_code(all.errors) }
}

pub open spec fn usize_lines(l: Seq<nat>) -> Seq<usize> {
    Seq::new(l.len(), |i: int| l[i] as usize)
}

/// `parse` from `pos`: the printed form of each statement, until the end of
/// input (exit 0) or the first parse error (exit 65).
pub open spec fn parse_report(toks: Seq<TokenView>, lines: Seq<usize>, pos: nat) -> Report
    decreases toks.len() - pos,
{
    if pos >= toks.len() || tok_at(toks, pos).kind == TokenKind::Eof {
        Report { out: Seq::empty(), err: Seq::empty(), code: 0 }
    } else {
        match parse_stmt(toks, lines, pos) {
            Parsed::Fail(e) => Report { out: Seq::empty(), err: parser_message(e) + "\n"@, code: 65 },
            Parsed::Done(s, p) => if pos < p <= toks.len() {
                let r = parse_report(toks, lines, p);
                Report { out: stmt_text(s) + "\n"@ + r.out, err: r.err, code: r.code }
            } else {
                Report { out: Seq::empty(), err: Seq::empty(), code: 0 }
            },
        }
    }
}

/// What a source text gives when a lexical error stops it before parsing.
pub open spec fn lexically_failed(e: Seq<LexerError>) -> Report {
    Report { out: Seq::empty(), err: lexer_messages(e), code: 65 }
}

/// `parse` on a whole source text.
pub open spec fn parse_source_report(src: Seq<char>) -> Report {
    let all = scan_all(src, 0, 1);
    if all.errors.len() > 0 {
        lexically_failed(all.errors)
    } else {
        parse_report(all.tokens, usize_lines(all.lines), 0)
    }
}

/// One statement at the top level; with `echo`, an expression statement
/// prints its value.
pub open spec fn top_effect(m: NumberModel, s: StmtV, env: Seq<ScopeV>, echo: bool) -> Effect {
    match s {
        StmtV::Expr(e) => if echo {
            let (r, env1) = eval(m, e, env);
            match r {
                Ok(v) => Effect { result: Ok(()), env: env1, out: value_text(m, v) + "\n"@ },
                Err(err) => Effect { result: Err(err), env: env1, out: Seq::empty() },
            }
        } else {
            exec_stmt(m, s, env)
        },
        _ => exec_stmt(m, s, env),
    }
}

/// Statements parsed and run one at a time from `pos`, until the end of
/// input (exit 0), a parse error (exit 65) or a runtime error (exit 70).
pub open spec fn run_report(
    m: NumberModel,
    toks: Seq<TokenView>,
    lines: Seq<usize>,
    pos: nat,
    env: Seq<ScopeV>,
    echo: bool,
) -> Report
    decreases toks.len() - pos,
{
    if pos >= toks.len() || tok_at(toks, pos).kind == TokenKind::Eof {
        Report { out: Seq::empty(), err: Seq::empty(), code: 0 }
    } else {
        match parse_stmt(toks, lines, pos) {
            Parsed::Fail(e) => Report { out: Seq::empty(), err: parser_message(e) + "\n"@, code: 65 },
            Parsed::Done(s, p) => {
                let x = top_effect(m, s, env, echo);
                match x.result {
                    Err(e) => Report { out: x.out, err: runtime_message(e) + "\n"@, code: 70 },
                    Ok(_) => if pos < p <= toks.len() {
                        let r = run_report(m, toks, lines, p, x.env, echo);
                        Report { out: x.out + r.out, err: r.err, code: r.code }
                    } else {
                        Report { out: Seq::empty(), err: Seq::empty(), code: 0 }
                    },
                }
            },
        }
    }
}

/// `run` (or, with `echo`, `evaluate`) on a whole source text, in a fresh
/// global scope.
pub open spec fn run_source_report(m: NumberModel, src: Seq<char>, echo: bool) -> Report {
    let all = scan_all(src, 0, 1);
    if all.errors.len() > 0 {
        lexically_failed(all.errors)
    } else {
        run_report(m, all.tokens, usize_lines(all.lines), 0, seq![Map::empty()], echo)
    }
}

fn lexer_messages_text(e: &Vec<LexerError>) -> (r: String)
    ensures
        r@ == lexer_messages(e@),
{
    let mut r = String::new();
    let mut i: usize = 0;
    while i < e.len()
        invariant
            i <= e@.len(),
            r@ == lexer_messages(e@.subrange(0, i as int)),
        decreases e.len() - i,
    {
        assert(e@.subrange(0, i + 1).drop_last() =~= e@.subrange(0, i as int));
        let msg = e[i].message();
        r.append(msg.as_str());
        r.append("\n");
        i = i + 1;
    }
    assert(e@.subrange(0, i as int) =~= e@);
    r
}

/// Every token of `source`, one per line; exit 65 where the lexer met an error.
pub fn tokenize(source: String) -> (r: Outcome)
    requires
        source@.len() < usize::MAX,
    ensures
        r@ == tokenize_report(source@),
{
    let ghost src = source@;
    let mut lexer = Lexer::new(source);
    let toks = lexer.parse_to_end();
    let errors = lexer.errors();
    let ghost all = scan_all(src, 0, 1);
    assert(errors@ =~= all.errors);
    let mut out = String::new();
    let mut i: usize = 0;
    while i < toks.len()
        invariant
            i <= toks@.len(),
            toks@.len() == all.tokens.len(),
            forall|j: int| 0 <= j < toks@.len() ==> toks@[j]@ == all.tokens[j],
            out@ == token_lines(all.tokens.subrange(0, i as int)),
        decreases toks.len() - i,
    {
        assert(all.tokens.subrange(0, i + 1).drop_last() =~= all.tokens.subrange(0, i as int));
        let line = toks[i].to_line();
        out.append(line.as_str());
        out.append("\n");
        i = i + 1;
    }
    assert(all.tokens.subrange(0, i as int) =~= all.tokens);
    let err = lexer_messages_text(&errors);
    let code: u8 = if errors.len() > 0 {
        65
    } else {
        0
    };
    Outcome { stdout: out, stderr: err, code }
}

/// A parser over `source`, with the lexical errors reported.
fn open_source(source: String) -> (r: (Parser, Vec<LexerError>))
    requires
        source@.len() < usize::MAX,
    ensures
        r.0.wf(),
        r.0@.pos == 0,
        ({
            let all = scan_all(source@, 0, 1);
            &&& r.0@.tokens == all.tokens
            &&& r.0@.lines == usize_lines(all.lines)
            &&& r.1@ == all.errors
            &&& (r.0@.result is Ok <==> all.errors.len() == 0)
        }),
{
    let ghost src = source@;
    let lexer = Lexer::new(source);
    let parser = Parser::new(lexer);
    let errors = parser.lexer_errors();
    proof {
        let all = scan_all(src, 0, 1);
        assert(errors@ =~= all.errors);
        assert(parser@.lines =~= usize_lines(all.lines));
    }
    (parser, errors)
}

/// The printed form of each statement of `source`, one per line; exit 65 on
/// a lexical or parse error.
pub fn parse_source(source: String) -> (r: Outcome)
    requires
        source@.len() < usize::MAX,
    ensures
        r@ == parse_source_report(source@),
{
    let ghost src = source@;
    let (mut parser, errors) = open_source(source);
    if errors.len() > 0 {
        return Outcome { stdout: String::new(), stderr: lexer_messages_text(&errors), code: 65 };
    }
    let ghost t = parser@.tokens;
    let ghost l = parser@.lines;
    let mut out = String::new();
    loop
        invariant
            parser.wf(),
            parser@.tokens == t,
            parser@.lines == l,
            parser@.result is Ok,
            src == source@,
            parse_source_report(src) == ({
                let r = parse_report(t, l, parser@.pos);
                Report { out: out@ + r.out, err: r.err, code: r.code }
            }),
        decreases t.len() - parser@.pos,
    {
        let ghost pos = parser@.pos;
        match parser.parse_statement() {
            Some(s) => {
                let text = s.to_text();
                let ghost out_before = out@;
                out.append(text.as_str());
                out.append("\n");
                proof {
                    let r = parse_report(t, l, parser@.pos);
                    assert(out_before + (text@ + "\n"@ + r.out) =~= out@ + r.out);
                }
            },
            None => {
                match parser.status() {
                    Ok(()) => {
                        proof {
                            if tok_at(t, pos).kind != TokenKind::Eof {
                                match parse_stmt(t, l, pos) {
                                    Parsed::Done(_, _) => {},
                                    Parsed::Fail(_) => {},
                                }
                            }
                        }
                        assert(out@ + Seq::<char>::empty() =~= out@);
                        return Outcome { stdout: out, stderr: String::new(), code: 0 };
                    },
                    Err(e) => {
                        let mut err = e.message();
                        err.append("\n");
                        proof {
                            assert(parse_stmt(t, l, pos) == Parsed::<StmtV>::Fail(e@));
                        }
                        assert(out@ + Seq::<char>::empty() =~= out@);
                        return Outcome { stdout: out, stderr: err, code: 65 };
                    },
                }
            },
        }
    }
}

/// Runs one top-level statement; with `echo`, an expression statement prints
/// its value.
fn run_top<F: Fn(NumberOp) -> NumberResult>(
    s: &Stmt,
    arith: &F,
    env: &mut Environment,
    out: &mut String,
    echo: bool,
) -> (r: Result<(), EvaluationError>)
    requires
        old(env).wf(),
        total(*arith),
    ensures
        final(env).wf(),
        forall|m: NumberModel| #[trigger] agrees(*arith, m) ==> crate::eval::matches_effect(
            r,
            final(env)@,
            final(out)@,
            old(out)@,
            top_effect(m, s@, old(env)@, echo),
        ),
{
    let ghost out0 = out@;
    match s {
        Stmt::Expr(e) => {
            if echo {
                match e.evaluate(arith, env) {
                    Ok(v) => {
                        let text = value_to_text(arith, &v);
                        out.append(text.as_str());
                        out.append("\n");
                        assert(out@ =~= out0 + (text@ + "\n"@));
                        Ok(())
                    },
                    Err(err) => {
                        assert(out@ =~= out0 + Seq::<char>::empty());
                        Err(err)
                    },
                }
            } else {
                s.run(arith, env, out)
            }
        },
        _ => s.run(arith, env, out),
    }
}

/// Parses and runs `source` one statement at a time in a fresh global scope.
fn interpret<F: Fn(NumberOp) -> NumberResult>(source: String, arith: &F, echo: bool) -> (r: Outcome)
    requires
        source@.len() < usize::MAX,
        total(*arith),
    ensures
        forall|m: NumberModel| #[trigger] agrees(*arith, m) ==> r@ == run_source_report(
            m,
            source@,
            echo,
        ),
{
    let ghost src = source@;
    let (mut parser, errors) = open_source(source);
    if errors.len() > 0 {
        return Outcome { stdout: String::new(), stderr: lexer_messages_text(&errors), code: 65 };
    }
    let ghost t = parser@.tokens;
    let ghost l = parser@.lines;
    let mut env = Environment::new();
    let mut out = String::new();
    loop
        invariant
            parser.wf(),
            parser@.tokens == t,
            parser@.lines == l,
            parser@.result is Ok,
            env.wf(),
            total(*arith),
            src == source@,
            forall|m: NumberModel| #[trigger] agrees(*arith, m) ==> run_source_report(m, src, echo) == ({
                let r = run_report(m, t, l, parser@.pos, env@, echo);
                Report { out: out@ + r.out, err: r.err, code: r.code }
            }),
        decreases t.len() - parser@.pos,
    {
        let ghost pos = parser@.pos;
        match parser.parse_statement() {
            Some(s) => {
                let ghost e_before = env@;
                let ghost out_before = out@;
                match run_top(&s, arith, &mut env, &mut out, echo) {
                    Ok(()) => {
                        proof {
                            assert forall|m: NumberModel| #[trigger] agrees(*arith, m) implies run_source_report(m, src, echo) == ({
                                let r = run_report(m, t, l, parser@.pos, env@, echo);
                                Report { out: out@ + r.out, err: r.err, code: r.code }
                            }) by {
                                let x = top_effect(m, s@, e_before, echo);
                                let r = run_report(m, t, l, parser@.pos, env@, echo);
                                assert(out_before + (x.out + r.out) =~= out@ + r.out);
                            }
                        }
                    },
                    Err(e) => {
                        let mut err = e.message();
                        err.append("\n");
                        return Outcome { stdout: out, stderr: err, code: 70 };
                    },
                }
            },
            None => {
                match parser.status() {
                    Ok(()) => {
                        proof {
                            if tok_at(t, pos).kind != TokenKind::Eof {
                                match parse_stmt(t, l, pos) {
                                    Parsed::Done(_, _) => {},
                                    Parsed::Fail(_) => {},
                                }
                            }
                        }
                        assert(out@ + Seq::<char>::empty() =~= out@);
                        return Outcome { stdout: out, stderr: String::new(), code: 0 };
                    },
                    Err(e) => {
                        let mut err = e.message();
                        err.append("\n");
                        proof {
                            assert(parse_stmt(t, l, pos) == Parsed::<StmtV>::Fail(e@));
                        }
                        assert(out@ + Seq::<char>::empty() =~= out@);
                        return Outcome { stdout: out, stderr: err, code: 65 };
                    },
                }
            },
        }
    }
}

/// Runs the program `source`: what it prints, its diagnostics, and exit 0,
/// 65 on a lexical or parse error, or 70 on a runtime error. Numbers are
/// computed by `arith`; the outcome is that of every model it agrees with.
pub fn run_source<F: Fn(NumberOp) -> NumberResult>(source: String, arith: &F) -> (r: Outcome)
    requires
        source@.len() < usize::MAX,
        total(*arith),
    ensures
        forall|m: NumberModel| #[trigger] agrees(*arith, m) ==> r@ == run_source_report(
            m,
            source@,
            false,
        ),
{
    interpret(source, arith, false)
}

/// As `run_source`, but each expression statement prints its value.
pub fn evaluate_source<F: Fn(NumberOp) -> NumberResult>(source: String, arith: &F) -> (r: Outcome)
    requires
        source@.len() < usize::MAX,
        total(*arith),
    ensures
        forall|m: NumberModel| #[trigger] agrees(*arith, m) ==> r@ == run_source_report(
            m,
            source@,
            true,
        ),
{
    interpret(source, arith, true)
}

} // verus!
