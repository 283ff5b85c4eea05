//! The parser: recursive descent over statements with precedence climbing
//! over binary operators, stated against a grammar given as spec functions.
use vstd::prelude::*;
use vstd::string::*;

use crate::ast::{
    BinaryKind, Expr, ExprV, Ident, Literal, LiteralV, Stmt, StmtV, UnaryKind,
};
use crate::lexer::{scan_all, Lexer, LexerError};
use crate::tokens::{Token, TokenKind, TokenView};

verus! {

/// The first error that stops parsing.
#[derive(Clone, Debug)]
pub enum ParserError {
    ExpectedExpression { line: usize, lexeme: String },
    LexerError(LexerError),
    UnmatchedParens(usize),
    UnexpectedToken(usize),
}

pub enum ParserErrorV {
    ExpectedExpression(usize, Seq<char>),
    LexerError(LexerError),
    UnmatchedParens(usize),
    UnexpectedToken(usize),
}

impl View for ParserError {
    type V = ParserErrorV;

    open spec fn view(&self) -> ParserErrorV {
        match self {
            ParserError::ExpectedExpression { line, lexeme } => ParserErrorV::ExpectedExpression(
                *line,
                lexeme@,
            ),
            ParserError::LexerError(e) => ParserErrorV::LexerError(*e),
            ParserError::UnmatchedParens(l) => ParserErrorV::UnmatchedParens(*l),
            ParserError::UnexpectedToken(l) => ParserErrorV::UnexpectedToken(*l),
        }
    }
}

/// The outcome of parsing a phrase from a position: the phrase and the
/// position after it, or the error.
pub enum Parsed<T> {
    Done(T, nat),
    Fail(ParserErrorV),
}

pub open spec fn is_binary_op(k: TokenKind) -> bool {
    k == TokenKind::Plus || k == TokenKind::Minus || k == TokenKind::Star || k
        == TokenKind::Slash || k == TokenKind::Less || k == TokenKind::LessEqual || k
        == TokenKind::Greater || k == TokenKind::GreaterEqual || k == TokenKind::EqualEqual
        || k == TokenKind::BangEqual
}

/// How tightly a binary operator binds; 0 for a token that is none.
pub open spec fn precedence(k: TokenKind) -> nat {
    if k == TokenKind::Star || k == TokenKind::Slash {
        10
    } else if k == TokenKind::Plus || k == TokenKind::Minus || k == TokenKind::Less {
        5
    } else if k == TokenKind::LessEqual || k == TokenKind::Greater || k == TokenKind::GreaterEqual
        || k == TokenKind::EqualEqual || k == TokenKind::BangEqual {
        2
    } else {
        0
    }
}

/// The precedence of prefix operators.
pub open spec fn unary_precedence() -> nat {
    10
}

pub open spec fn binary_kind(k: TokenKind) -> BinaryKind {
    if k == TokenKind::Plus {
        BinaryKind::Addition
    } else if k == TokenKind::Minus {
        BinaryKind::Subtraction
    } else if k == TokenKind::Star {
        BinaryKind::Multiplication
    } else if k == TokenKind::Slash {
        BinaryKind::Division
    } else if k == TokenKind::Less {
        BinaryKind::Less
    } else if k == TokenKind::LessEqual {
        BinaryKind::LessEqual
    } else if k == TokenKind::Greater {
        BinaryKind::Greater
    } else if k == TokenKind::GreaterEqual {
        BinaryKind::GreaterEqual
    } else if k == TokenKind::EqualEqual {
        BinaryKind::Equality
    } else {
        BinaryKind::NotEquality
    }
}

pub open spec fn tok_at(toks: Seq<TokenView>, pos: nat) -> TokenView {
    if pos < toks.len() {
        toks[pos as int]
    } else {
        TokenView { kind: TokenKind::Eof, lexeme: Seq::empty(), literal: None }
    }
}

pub open spec fn line_at(lines: Seq<usize>, pos: nat) -> usize {
    if pos < lines.len() {
        lines[pos as int]
    } else {
        0
    }
}

/// The value text of a literal token: its literal, else its lexeme.
pub open spec fn value_text(t: TokenView) -> Seq<char> {
    match t.literal {
        Some(l) => l,
        None => t.lexeme,
    }
}

/// An expression whose operators all bind tighter than `prec`, from `pos`.
pub open spec fn parse_expr(
    toks: Seq<TokenView>,
    lines: Seq<usize>,
    pos: nat,
    prec: nat,
) -> Parsed<ExprV>
    decreases toks.len() - pos, 2nat,
{
    match parse_primary(toks, lines, pos) {
        Parsed::Done(left, p) => if pos < p <= toks.len() {
            climb(toks, lines, p, prec, left)
        } else {
            Parsed::Fail(ParserErrorV::UnexpectedToken(line_at(lines, pos)))
        },
        Parsed::Fail(e) => Parsed::Fail(e),
    }
}

/// Folds into `left` the binary operators from `pos` on that bind tighter than `prec`.
pub open spec fn climb(
    toks: Seq<TokenView>,
    lines: Seq<usize>,
    pos: nat,
    prec: nat,
    left: ExprV,
) -> Parsed<ExprV>
    decreases toks.len() - pos, 1nat,
{
    let t = tok_at(toks, pos);
    if pos < toks.len() && is_binary_op(t.kind) && precedence(t.kind) > prec {
        match parse_expr(toks, lines, pos + 1, precedence(t.kind)) {
            Parsed::Done(right, p) => if pos < p <= toks.len() {
                climb(
                    toks,
                    lines,
                    p,
                    prec,
                    ExprV::Binary(
                        binary_kind(t.kind),
                        Box::new(left),
                        Box::new(right),
                        line_at(lines, pos),
                    ),
                )
            } else {
                Parsed::Fail(ParserErrorV::UnexpectedToken(line_at(lines, pos)))
            },
            Parsed::Fail(e) => Parsed::Fail(e),
        }
    } else {
        Parsed::Done(left, pos)
    }
}

/// A primary expression, a prefix operator applied to one, or an assignment.
pub open spec fn parse_primary(toks: Seq<TokenView>, lines: Seq<usize>, pos: nat) -> Parsed<
    ExprV,
>
    decreases toks.len() - pos, 0nat,
{
    let t = tok_at(toks, pos);
    let line = line_at(lines, pos);
    if pos >= toks.len() {
        Parsed::Fail(ParserErrorV::ExpectedExpression(line, t.lexeme))
    } else if t.kind == TokenKind::NumberLiteral {
        Parsed::Done(ExprV::Literal(LiteralV::Number(value_text(t))), pos + 1)
    } else if t.kind == TokenKind::StringLiteral {
        Parsed::Done(ExprV::Literal(LiteralV::Str(value_text(t))), pos + 1)
    } else if t.kind == TokenKind::TRUE {
        Parsed::Done(ExprV::Literal(LiteralV::Logical(true)), pos + 1)
    } else if t.kind == TokenKind::FALSE {
        Parsed::Done(ExprV::Literal(LiteralV::Logical(false)), pos + 1)
    } else if t.kind == TokenKind::NIL {
        Parsed::Done(ExprV::Literal(LiteralV::Nil), pos + 1)
    } else if t.kind == TokenKind::LeftParen {
        match parse_expr(toks, lines, pos + 1, 0) {
            Parsed::Done(inner, p) => if tok_at(toks, p).kind == TokenKind::RightParen {
                Parsed::Done(ExprV::Group(Box::new(inner)), p + 1)
            } else {
                Parsed::Fail(ParserErrorV::UnmatchedParens(line))
            },
            Parsed::Fail(e) => Parsed::Fail(e),
        }
    } else if t.kind == TokenKind::Bang || t.kind == TokenKind::Minus {
        let k = if t.kind == TokenKind::Bang {
            UnaryKind::LogicalNot
        } else {
            UnaryKind::Negation
        };
        match parse_expr(toks, lines, pos + 1, unary_precedence()) {
            Parsed::Done(operand, p) => Parsed::Done(ExprV::Unary(k, Box::new(operand), line), p),
            Parsed::Fail(e) => Parsed::Fail(e),
        }
    } else if t.kind == TokenKind::Identifier {
        if tok_at(toks, pos + 1).kind == TokenKind::Equal {
            match parse_expr(toks, lines, pos + 2, 0) {
                Parsed::Done(rhs, p) => Parsed::Done(ExprV::Assignment(t.lexeme, Box::new(rhs)), p),
                Parsed::Fail(e) => Parsed::Fail(e),
            }
        } else {
            Parsed::Done(ExprV::Ident(t.lexeme), pos + 1)
        }
    } else {
        Parsed::Fail(ParserErrorV::ExpectedExpression(line, t.lexeme))
    }
}

/// The position after a statement that ends at `p`: a `;` there is consumed.
pub open spec fn end_stmt(toks: Seq<TokenView>, p: nat) -> nat {
    if tok_at(toks, p).kind == TokenKind::Semicolon {
        p + 1
    } else {
        p
    }
}

/// One statement from `pos`.
pub open spec fn parse_stmt(toks: Seq<TokenView>, lines: Seq<usize>, pos: nat) -> Parsed<StmtV>
    decreases toks.len() - pos, 0nat,
{
    let t = tok_at(toks, pos);
    if pos >= toks.len() {
        Parsed::Fail(ParserErrorV::UnexpectedToken(line_at(lines, pos)))
    } else if t.kind == TokenKind::PRINT {
        match parse_expr(toks, lines, pos + 1, 0) {
            Parsed::Done(e, p) => Parsed::Done(StmtV::Print(e), end_stmt(toks, p)),
            Parsed::Fail(e) => Parsed::Fail(e),
        }
    } else if t.kind == TokenKind::VAR {
        let name = tok_at(toks, pos + 1);
        if name.kind != TokenKind::Identifier {
            Parsed::Fail(ParserErrorV::UnexpectedToken(line_at(lines, pos + 1)))
        } else if tok_at(toks, pos + 2).kind == TokenKind::Equal {
            match parse_expr(toks, lines, pos + 3, 0) {
                Parsed::Done(e, p) => Parsed::Done(StmtV::Declaration(name.lexeme, e), end_stmt(toks, p)),
                Parsed::Fail(e) => Parsed::Fail(e),
            }
        } else {
            Parsed::Done(
                StmtV::Declaration(name.lexeme, ExprV::Literal(LiteralV::Nil)),
                end_stmt(toks, pos + 2),
            )
        }
    } else if t.kind == TokenKind::LeftBrace {
        parse_block(toks, lines, pos + 1, Seq::empty())
    } else if t.kind == TokenKind::RightBrace {
        Parsed::Fail(ParserErrorV::UnexpectedToken(line_at(lines, pos)))
    } else {
        match parse_expr(toks, lines, pos, 0) {
            Parsed::Done(e, p) => Parsed::Done(StmtV::Expr(e), end_stmt(toks, p)),
            Parsed::Fail(e) => Parsed::Fail(e),
        }
    }
}

/// The rest of a block from `pos`, after the statements `done` read so far.
pub open spec fn parse_block(
    toks: Seq<TokenView>,
    lines: Seq<usize>,
    pos: nat,
    done: Seq<StmtV>,
) -> Parsed<StmtV>
    decreases toks.len() - pos, 1nat,
{
    let t = tok_at(toks, pos);
    if pos >= toks.len() || t.kind == TokenKind::Eof {
        Parsed::Fail(ParserErrorV::UnexpectedToken(line_at(lines, pos)))
    } else if t.kind == TokenKind::RightBrace {
        Parsed::Done(StmtV::Block(done), pos + 1)
    } else {
        match parse_stmt(toks, lines, pos) {
            Parsed::Done(s, p) => if pos < p <= toks.len() {
                parse_block(toks, lines, p, done.push(s))
            } else {
                Parsed::Fail(ParserErrorV::UnexpectedToken(line_at(lines, pos)))
            },
            Parsed::Fail(e) => Parsed::Fail(e),
        }
    }
}

} // verus!

verus! {

pub open spec fn result_view(r: Result<(), ParserError>) -> Result<(), ParserErrorV> {
    match r {
        Ok(u) => Ok(u),
        Err(e) => Err(e@),
    }
}

/// The state of a parser: the token buffer with the line of each token, the
/// position of the next token, and ok or the first error.
pub struct ParserView {
    pub lex_errors: Seq<LexerError>,
    pub tokens: Seq<TokenView>,
    pub lines: Seq<usize>,
    pub pos: nat,
    pub result: Result<(), ParserErrorV>,
}

/// A parser that owns its token buffer and hands out one statement per call.
pub struct Parser {
    lex_errors: Vec<LexerError>,
    tokens: Vec<Token>,
    lines: Vec<usize>,
    cursor: usize,
    result: Result<(), ParserError>,
}

impl View for Parser {
    type V = ParserView;

    closed spec fn view(&self) -> ParserView {
        ParserView {
            lex_errors: self.lex_errors@,
            tokens: self.tokens@.map_values(|t: Token| t@),
            lines: self.lines@,
            pos: self.cursor as nat,
            result: result_view(self.result),
        }
    }
}

/// The same tokens, lines and status.
pub open spec fn same_input(a: ParserView, b: ParserView) -> bool {
    a.tokens == b.tokens && a.lines == b.lines && a.result == b.result && a.lex_errors
        == b.lex_errors
}

/// The status a parser starts with, from the lexer's.
pub open spec fn lexer_status(r: Result<(), LexerError>) -> Result<(), ParserErrorV> {
    match r {
        Ok(u) => Ok(u),
        Err(e) => Err(ParserErrorV::LexerError(e)),
    }
}

fn is_binary_op_exec(k: TokenKind) -> (r: bool)
    ensures
        r == is_binary_op(k),
{
    match k {
        TokenKind::Plus | TokenKind::Minus | TokenKind::Star | TokenKind::Slash | TokenKind::Less
        | TokenKind::LessEqual | TokenKind::Greater | TokenKind::GreaterEqual
        | TokenKind::EqualEqual | TokenKind::BangEqual => true,
        _ => false,
    }
}

fn get_precedence(k: TokenKind) -> (r: u8)
    ensures
        r as nat == precedence(k),
{
    match k {
        TokenKind::Star | TokenKind::Slash => 10,
        TokenKind::Plus | TokenKind::Minus | TokenKind::Less => 5,
        TokenKind::LessEqual | TokenKind::Greater | TokenKind::GreaterEqual
        | TokenKind::EqualEqual | TokenKind::BangEqual => 2,
        _ => 0,
    }
}

fn binary_kind_of(k: TokenKind) -> (r: BinaryKind)
    ensures
        r == binary_kind(k),
{
    match k {
        TokenKind::Plus => BinaryKind::Addition,
        TokenKind::Minus => BinaryKind::Subtraction,
        TokenKind::Star => BinaryKind::Multiplication,
        TokenKind::Slash => BinaryKind::Division,
        TokenKind::Less => BinaryKind::Less,
        TokenKind::LessEqual => BinaryKind::LessEqual,
        TokenKind::Greater => BinaryKind::Greater,
        TokenKind::GreaterEqual => BinaryKind::GreaterEqual,
        TokenKind::EqualEqual => BinaryKind::Equality,
        _ => BinaryKind::NotEquality,
    }
}

fn copy_error(e: &ParserError) -> (r: ParserError)
    ensures
        r@ == e@,
{
    match e {
        ParserError::ExpectedExpression { line, lexeme } => ParserError::ExpectedExpression {
            line: *line,
            lexeme: lexeme.clone(),
        },
        ParserError::LexerError(l) => ParserError::LexerError(*l),
        ParserError::UnmatchedParens(l) => ParserError::UnmatchedParens(*l),
        ParserError::UnexpectedToken(l) => ParserError::UnexpectedToken(*l),
    }
}

impl Parser {
    /// Well-formedness: one line per token, the last token is the end of
    /// input, and the cursor stands on a token.
    pub closed spec fn wf(&self) -> bool {
        &&& self@.pos < self@.tokens.len()
        &&& self@.lines.len() == self@.tokens.len()
        &&& self.tokens@.len() >= 1
        &&& self.lines@.len() == self.tokens@.len()
        &&& self.tokens@.last().kind == TokenKind::Eof
        &&& self.cursor < self.tokens@.len()
    }

    /// A parser over every token that `lexer` has left; its status starts
    /// as the lexer's first error, if any.
    pub fn new(lexer: Lexer) -> (p: Parser)
        requires
            lexer.wf(),
        ensures
            p.wf(),
            p@.pos == 0,
            !lexer@.done ==> ({
                let all = scan_all(lexer@.text, lexer@.pos, lexer@.line);
                &&& p@.tokens == all.tokens
                &&& p@.lines.len() == all.lines.len()
                &&& forall|i: int| 0 <= i < all.lines.len() ==> p@.lines[i] as nat == all.lines[i]
                &&& p@.result == lexer_status(crate::lexer::first_error(lexer@.result, all.errors))
                &&& p@.lex_errors == lexer@.errors + all.errors
            }),
    {
        let mut lexer = lexer;
        let ghost v0 = lexer@;
        let (mut tokens, mut lines) = lexer.drain();
        if tokens.len() == 0 {
            tokens.push(Token::eof());
            lines.push(lexer.line());
        }
        proof {
            if !v0.done {
                crate::lexer::lemma_single_eof(v0.text, v0.pos, v0.line);
                let all = scan_all(v0.text, v0.pos, v0.line);
                assert(tokens@.map_values(|t: Token| t@) =~= all.tokens);
            }
        }
        let result = match lexer.status() {
            Ok(()) => Ok(()),
            Err(e) => Err(ParserError::LexerError(e)),
        };
        Parser { lex_errors: lexer.errors(), tokens, lines, cursor: 0, result }
    }

    /// Every error the lexer met, in order.
    pub fn lexer_errors(&self) -> (r: Vec<LexerError>)
        ensures
            r@ == self@.lex_errors,
    {
        self.lex_errors.clone()
    }

    /// Ok, or the first error met.
    pub fn status(&self) -> (r: Result<(), ParserError>)
        ensures
            result_view(r) == self@.result,
    {
        match &self.result {
            Ok(()) => Ok(()),
            Err(e) => Err(copy_error(e)),
        }
    }

    fn peek_token(&self) -> (k: TokenKind)
        requires
            self.wf(),
        ensures
            k == tok_at(self@.tokens, self@.pos).kind,
    {
        self.tokens[self.cursor].kind
    }

    fn kind_at(&self, i: usize) -> (k: TokenKind)
        requires
            self.wf(),
        ensures
            k == tok_at(self@.tokens, i as nat).kind,
    {
        if i < self.tokens.len() {
            self.tokens[i].kind
        } else {
            TokenKind::Eof
        }
    }

    proof fn lemma_not_last(&self)
        requires
            self.wf(),
            tok_at(self@.tokens, self@.pos).kind != TokenKind::Eof,
        ensures
            self.cursor + 1 < self.tokens@.len(),
    {
        assert(self@.tokens[self.cursor as int] == self.tokens@[self.cursor as int]@);
    }

    /// Steps over a token that is not the end of input.
    fn advance(&mut self)
        requires
            old(self).wf(),
            tok_at(old(self)@.tokens, old(self)@.pos).kind != TokenKind::Eof,
        ensures
            final(self).wf(),
            same_input(final(self)@, old(self)@),
            final(self)@.pos == old(self)@.pos + 1,
    {
        proof {
            self.lemma_not_last();
        }
        let _n = self.tokens.len();
        self.cursor = self.cursor + 1;
    }

    fn value_text_at(&self, i: usize) -> (r: String)
        requires
            self.wf(),
            i < self@.tokens.len(),
        ensures
            r@ == value_text(self@.tokens[i as int]),
    {
        match &self.tokens[i].literal {
            Some(l) => l.clone(),
            None => self.tokens[i].lexeme.clone(),
        }
    }

    fn lexeme_at(&self, i: usize) -> (r: String)
        requires
            self.wf(),
            i < self@.tokens.len(),
        ensures
            r@ == self@.tokens[i as int].lexeme,
    {
        self.tokens[i].lexeme.clone()
    }

    /// An expression whose operators bind tighter than `prec`.
    fn parse_expression(&mut self, prec: u8) -> (r: Result<Expr, ParserError>)
        requires
            old(self).wf(),
        ensures
            final(self).wf(),
            same_input(final(self)@, old(self)@),
            match r {
                Ok(e) => parse_expr(old(self)@.tokens, old(self)@.lines, old(self)@.pos, prec as nat)
                    == Parsed::Done(e@, final(self)@.pos) && final(self)@.pos > old(self)@.pos,
                Err(err) => parse_expr(old(self)@.tokens, old(self)@.lines, old(self)@.pos, prec as nat)
                    == Parsed::<ExprV>::Fail(err@),
            },
        decreases old(self)@.tokens.len() - old(self)@.pos, 2nat,
    {
        let ghost t = self@.tokens;
        let ghost l = self@.lines;
        let start = self.cursor;
        let mut left = match self.parse_primary() {
            Ok(e) => e,
            Err(err) => return Err(err),
        };
        loop
            invariant
                self.wf(),
                same_input(self@, old(self)@),
                t == old(self)@.tokens,
                l == old(self)@.lines,
                start == old(self)@.pos,
                self@.pos > start,
                parse_expr(t, l, start as nat, prec as nat) == climb(
                    t,
                    l,
                    self@.pos,
                    prec as nat,
                    left@,
                ),
            decreases t.len() - self@.pos,
        {
            let k = self.peek_token();
            if !(is_binary_op_exec(k) && get_precedence(k) > prec) {
                return Ok(left);
            }
            let line = self.lines[self.cursor];
            self.advance();
            match self.parse_expression(get_precedence(k)) {
                Ok(right) => {
                    left = Expr::Binary {
                        op: binary_kind_of(k),
                        left: Box::new(left),
                        right: Box::new(right),
                        line,
                    };
                },
                Err(err) => return Err(err),
            }
        }
    }

    /// A primary expression, a prefix operator applied to one, or an assignment.
    fn parse_primary(&mut self) -> (r: Result<Expr, ParserError>)
        requires
            old(self).wf(),
        ensures
            final(self).wf(),
            same_input(final(self)@, old(self)@),
            match r {
                Ok(e) => parse_primary(old(self)@.tokens, old(self)@.lines, old(self)@.pos)
                    == Parsed::Done(e@, final(self)@.pos) && final(self)@.pos > old(self)@.pos,
                Err(err) => parse_primary(old(self)@.tokens, old(self)@.lines, old(self)@.pos)
                    == Parsed::<ExprV>::Fail(err@),
            },
        decreases old(self)@.tokens.len() - old(self)@.pos, 0nat,
    {
        let pos = self.cursor;
        let kind = self.peek_token();
        let line = self.lines[pos];
        match kind {
            TokenKind::NumberLiteral => {
                let text = self.value_text_at(pos);
                self.advance();
                Ok(Expr::Literal(Literal::Number(text)))
            },
            TokenKind::StringLiteral => {
                let text = self.value_text_at(pos);
                self.advance();
                Ok(Expr::Literal(Literal::Str(text)))
            },
            TokenKind::TRUE => {
                self.advance();
                Ok(Expr::Literal(Literal::Logical(true)))
            },
            TokenKind::FALSE => {
                self.advance();
                Ok(Expr::Literal(Literal::Logical(false)))
            },
            TokenKind::NIL => {
                self.advance();
                Ok(Expr::Literal(Literal::Nil))
            },
            TokenKind::LeftParen => {
                self.advance();
                match self.parse_expression(0) {
                    Ok(inner) => {
                        if self.peek_token() == TokenKind::RightParen {
                            self.advance();
                            Ok(Expr::Group(Box::new(inner)))
                        } else {
                            Err(ParserError::UnmatchedParens(line))
                        }
                    },
                    Err(err) => Err(err),
                }
            },
            TokenKind::Bang | TokenKind::Minus => {
                let k = if kind == TokenKind::Bang {
                    UnaryKind::LogicalNot
                } else {
                    UnaryKind::Negation
                };
                self.advance();
                match self.parse_expression(10) {
                    Ok(operand) => Ok(Expr::Unary(k, Box::new(operand), line)),
                    Err(err) => Err(err),
                }
            },
            TokenKind::Identifier => {
                let name = self.lexeme_at(pos);
                proof {
                    self.lemma_not_last();
                }
                let _n = self.tokens.len();
                if self.kind_at(pos + 1) == TokenKind::Equal {
                    self.advance();
                    self.advance();
                    match self.parse_expression(0) {
                        Ok(rhs) => Ok(Expr::Assignment(Ident(name), Box::new(rhs))),
                        Err(err) => Err(err),
                    }
                } else {
                    self.advance();
                    Ok(Expr::Ident(Ident(name)))
                }
            },
            _ => Err(ParserError::ExpectedExpression { line, lexeme: self.lexeme_at(pos) }),
        }
    }

    /// Consumes a `;` that ends a statement, if there is one.
    fn skip_semicolon(&mut self)
        requires
            old(self).wf(),
        ensures
            final(self).wf(),
            same_input(final(self)@, old(self)@),
            final(self)@.pos == end_stmt(old(self)@.tokens, old(self)@.pos),
    {
        if self.peek_token() == TokenKind::Semicolon {
            self.advance();
        }
    }

    /// One statement.
    fn statement(&mut self) -> (r: Result<Stmt, ParserError>)
        requires
            old(self).wf(),
        ensures
            final(self).wf(),
            same_input(final(self)@, old(self)@),
            match r {
                Ok(s) => parse_stmt(old(self)@.tokens, old(self)@.lines, old(self)@.pos)
                    == Parsed::Done(s@, final(self)@.pos) && final(self)@.pos > old(self)@.pos,
                Err(err) => parse_stmt(old(self)@.tokens, old(self)@.lines, old(self)@.pos)
                    == Parsed::<StmtV>::Fail(err@),
            },
        decreases old(self)@.tokens.len() - old(self)@.pos, 0nat,
    {
        let pos = self.cursor;
        let kind = self.peek_token();
        match kind {
            TokenKind::PRINT => {
                self.advance();
                match self.parse_expression(0) {
                    Ok(e) => {
                        self.skip_semicolon();
                        Ok(Stmt::Print(e))
                    },
                    Err(err) => Err(err),
                }
            },
            TokenKind::VAR => {
                self.advance();
                if self.peek_token() != TokenKind::Identifier {
                    return Err(ParserError::UnexpectedToken(self.lines[self.cursor]));
                }
                let name = self.lexeme_at(self.cursor);
                self.advance();
                if self.peek_token() == TokenKind::Equal {
                    self.advance();
                    match self.parse_expression(0) {
                        Ok(e) => {
                            self.skip_semicolon();
                            Ok(Stmt::Declaration(Ident(name), e))
                        },
                        Err(err) => Err(err),
                    }
                } else {
                    self.skip_semicolon();
                    Ok(Stmt::Declaration(Ident(name), Expr::Literal(Literal::Nil)))
                }
            },
            TokenKind::LeftBrace => {
                self.advance();
                self.block()
            },
            TokenKind::RightBrace => Err(ParserError::UnexpectedToken(self.lines[pos])),
            _ => {
                match self.parse_expression(0) {
                    Ok(e) => {
                        self.skip_semicolon();
                        Ok(Stmt::Expr(e))
                    },
                    Err(err) => Err(err),
                }
            },
        }
    }

    /// The statements of a block up to its closing brace, the opening brace
    /// being read.
    fn block(&mut self) -> (r: Result<Stmt, ParserError>)
        requires
            old(self).wf(),
        ensures
            final(self).wf(),
            same_input(final(self)@, old(self)@),
            match r {
                Ok(s) => parse_block(old(self)@.tokens, old(self)@.lines, old(self)@.pos, Seq::empty())
                    == Parsed::Done(s@, final(self)@.pos) && final(self)@.pos > old(self)@.pos,
                Err(err) => parse_block(old(self)@.tokens, old(self)@.lines, old(self)@.pos, Seq::empty())
                    == Parsed::<StmtV>::Fail(err@),
            },
        decreases old(self)@.tokens.len() - old(self)@.pos, 1nat,
    {
        let ghost t = self@.tokens;
        let ghost l = self@.lines;
        let start = self.cursor;
        let mut stmts: Vec<Stmt> = Vec::new();
        assert(Seq::new(stmts@.len(), |i: int| stmts@[i]@) =~= Seq::<StmtV>::empty());
        loop
            invariant
                self.wf(),
                same_input(self@, old(self)@),
                t == old(self)@.tokens,
                l == old(self)@.lines,
                start == old(self)@.pos,
                self@.pos >= start,
                parse_block(t, l, start as nat, Seq::empty()) == parse_block(
                    t,
                    l,
                    self@.pos,
                    Seq::new(stmts@.len(), |i: int| stmts@[i]@),
                ),
            decreases t.len() - self@.pos,
        {
            let kind = self.peek_token();
            if kind == TokenKind::Eof {
                return Err(ParserError::UnexpectedToken(self.lines[self.cursor]));
            }
            if kind == TokenKind::RightBrace {
                self.advance();
                let r = Stmt::Block(stmts);
                proof {
                    let items = match r@ {
                        StmtV::Block(items) => items,
                        _ => Seq::empty(),
                    };
                    assert(items =~= Seq::new(stmts@.len(), |i: int| stmts@[i]@));
                }
                return Ok(r);
            }
            match self.statement() {
                Ok(st) => {
                    let ghost before = Seq::new(stmts@.len(), |i: int| stmts@[i]@);
                    let ghost sv = st@;
                    stmts.push(st);
                    assert(Seq::new(stmts@.len(), |i: int| stmts@[i]@) =~= before.push(sv));
                },
                Err(err) => return Err(err),
            }
        }
    }

    /// The next statement. Gives nothing at the end of input and once an
    /// error has been met; the first error is kept as the parser's status.
    pub fn parse_statement(&mut self) -> (r: Option<Stmt>)
        requires
            old(self).wf(),
        ensures
            final(self).wf(),
            final(self)@.tokens == old(self)@.tokens,
            final(self)@.lines == old(self)@.lines,
            final(self)@.lex_errors == old(self)@.lex_errors,
            old(self)@.result is Err ==> r is None && final(self)@ == old(self)@,
            old(self)@.result is Ok && tok_at(old(self)@.tokens, old(self)@.pos).kind
                == TokenKind::Eof ==> r is None && final(self)@ == old(self)@,
            old(self)@.result is Ok && tok_at(old(self)@.tokens, old(self)@.pos).kind
                != TokenKind::Eof ==> match parse_stmt(
                old(self)@.tokens,
                old(self)@.lines,
                old(self)@.pos,
            ) {
                Parsed::Done(s, p) => r is Some && r->0@ == s && final(self)@.pos == p
                    && old(self)@.pos < p < old(self)@.tokens.len() && final(self)@.result == old(
                    self,
                )@.result,
                Parsed::Fail(e) => r is None && final(self)@.result == Err::<(), ParserErrorV>(e),
            },
    {
        if self.result.is_err() || self.peek_token() == TokenKind::Eof {
            return None;
        }
        match self.statement() {
            Ok(s) => Some(s),
            Err(err) => {
                self.result = Err(err);
                None
            },
        }
    }
}

} // verus!

verus! {

pub open spec fn paren_delta(t: TokenView) -> int {
    if t.kind == TokenKind::LeftParen {
        1
    } else if t.kind == TokenKind::RightParen {
        -1
    } else {
        0
    }
}

/// Opening minus closing parentheses among the tokens `i..j`.
pub open spec fn depth(toks: Seq<TokenView>, i: int, j: int) -> int
    decreases j - i,
{
    if j <= i {
        0
    } else {
        depth(toks, i, j - 1) + paren_delta(toks[j - 1])
    }
}

/// Every `(` among the tokens `i..j` has its matching `)` there.
pub open spec fn balanced(toks: Seq<TokenView>, i: int, j: int) -> bool {
    &&& i <= j
    &&& depth(toks, i, j) == 0
    &&& forall|k: int| i <= k <= j ==> depth(toks, i, k) >= 0
}

proof fn lemma_depth_split(toks: Seq<TokenView>, i: int, k: int, j: int)
    requires
        i <= k <= j,
    ensures
        depth(toks, i, j) == depth(toks, i, k) + depth(toks, k, j),
    decreases j - k,
{
    if k < j {
        lemma_depth_split(toks, i, k, j - 1);
    }
}

proof fn lemma_balanced_join(toks: Seq<TokenView>, i: int, k: int, j: int)
    requires
        balanced(toks, i, k),
        balanced(toks, k, j),
    ensures
        balanced(toks, i, j),
{
    lemma_depth_split(toks, i, k, j);
    assert forall|x: int| i <= x <= j implies depth(toks, i, x) >= 0 by {
        if x > k {
            lemma_depth_split(toks, i, k, x);
        }
    }
}

proof fn lemma_balanced_plain(toks: Seq<TokenView>, i: int)
    requires
        0 <= i < toks.len(),
        paren_delta(toks[i]) == 0,
    ensures
        balanced(toks, i, i + 1),
{
    assert(depth(toks, i, i + 1) == depth(toks, i, i) + paren_delta(toks[i]));
}

proof fn lemma_balanced_group(toks: Seq<TokenView>, i: int, k: int)
    requires
        0 <= i,
        k < toks.len(),
        toks[i].kind == TokenKind::LeftParen,
        toks[k].kind == TokenKind::RightParen,
        balanced(toks, i + 1, k),
    ensures
        balanced(toks, i, k + 1),
{
    assert(depth(toks, i, i) == 0);
    assert(depth(toks, i, i + 1) == depth(toks, i, i) + paren_delta(toks[i]));
    assert(depth(toks, i, i + 1) == 1);
    lemma_depth_split(toks, i, i + 1, k + 1);
    assert forall|x: int| i <= x <= k + 1 implies depth(toks, i, x) >= 0 by {
        if x > i {
            lemma_depth_split(toks, i, i + 1, x);
        }
    }
}

proof fn lemma_balanced_empty(toks: Seq<TokenView>, i: int)
    ensures
        balanced(toks, i, i),
{
}

proof fn lemma_end_stmt_balanced(toks: Seq<TokenView>, p: nat)
    requires
        p <= toks.len(),
    ensures
        balanced(toks, p as int, end_stmt(toks, p) as int),
{
    if tok_at(toks, p).kind == TokenKind::Semicolon {
        lemma_balanced_plain(toks, p as int);
    }
}

/// A parsed expression takes at least one token and spans balanced parentheses.
pub proof fn lemma_expr_balanced(toks: Seq<TokenView>, lines: Seq<usize>, pos: nat, prec: nat)
    ensures
        parse_expr(toks, lines, pos, prec) matches Parsed::Done(_, p) ==> pos < p <= toks.len()
            && balanced(toks, pos as int, p as int),
    decreases toks.len() - pos, 2nat,
{
    lemma_primary_balanced(toks, lines, pos);
    match parse_primary(toks, lines, pos) {
        Parsed::Done(left, p) => {
            if pos < p <= toks.len() {
                lemma_climb_balanced(toks, lines, p, prec, left);
                if let Parsed::Done(_, q) = climb(toks, lines, p, prec, left) {
                    lemma_balanced_join(toks, pos as int, p as int, q as int);
                }
            }
        },
        _ => {},
    }
}

pub proof fn lemma_climb_balanced(
    toks: Seq<TokenView>,
    lines: Seq<usize>,
    pos: nat,
    prec: nat,
    left: ExprV,
)
    requires
        pos <= toks.len(),
    ensures
        climb(toks, lines, pos, prec, left) matches Parsed::Done(_, p) ==> pos <= p <= toks.len()
            && balanced(toks, pos as int, p as int),
    decreases toks.len() - pos, 1nat,
{
    let t = tok_at(toks, pos);
    if pos < toks.len() && is_binary_op(t.kind) && precedence(t.kind) > prec {
        lemma_expr_balanced(toks, lines, pos + 1, precedence(t.kind));
        match parse_expr(toks, lines, pos + 1, precedence(t.kind)) {
            Parsed::Done(right, p) => {
                if pos < p <= toks.len() {
                    let next = ExprV::Binary(
                        binary_kind(t.kind),
                        Box::new(left),
                        Box::new(right),
                        line_at(lines, pos),
                    );
                    lemma_climb_balanced(toks, lines, p, prec, next);
                    lemma_balanced_plain(toks, pos as int);
                    lemma_balanced_join(toks, pos as int, pos + 1int, p as int);
                    if let Parsed::Done(_, q) = climb(toks, lines, p, prec, next) {
                        lemma_balanced_join(toks, pos as int, p as int, q as int);
                    }
                }
            },
            _ => {},
        }
    }
}

pub proof fn lemma_primary_balanced(toks: Seq<TokenView>, lines: Seq<usize>, pos: nat)
    ensures
        parse_primary(toks, lines, pos) matches Parsed::Done(_, p) ==> pos < p <= toks.len()
            && balanced(toks, pos as int, p as int),
    decreases toks.len() - pos, 0nat,
{
    let t = tok_at(toks, pos);
    if pos < toks.len() {
        if t.kind == TokenKind::LeftParen {
            lemma_expr_balanced(toks, lines, pos + 1, 0);
            if let Parsed::Done(_, p) = parse_expr(toks, lines, pos + 1, 0) {
                if tok_at(toks, p).kind == TokenKind::RightParen {
                    lemma_balanced_group(toks, pos as int, p as int);
                }
            }
        } else if t.kind == TokenKind::Bang || t.kind == TokenKind::Minus {
            lemma_expr_balanced(toks, lines, pos + 1, unary_precedence());
            lemma_balanced_plain(toks, pos as int);
            if let Parsed::Done(_, p) = parse_expr(toks, lines, pos + 1, unary_precedence()) {
                lemma_balanced_join(toks, pos as int, pos + 1int, p as int);
            }
        } else if t.kind == TokenKind::Identifier && tok_at(toks, pos + 1).kind
            == TokenKind::Equal {
            lemma_expr_balanced(toks, lines, pos + 2, 0);
            lemma_balanced_plain(toks, pos as int);
            lemma_balanced_plain(toks, pos + 1int);
            lemma_balanced_join(toks, pos as int, pos + 1int, pos + 2int);
            if let Parsed::Done(_, p) = parse_expr(toks, lines, pos + 2, 0) {
                lemma_balanced_join(toks, pos as int, pos + 2int, p as int);
            }
        } else if paren_delta(t) == 0 {
            lemma_balanced_plain(toks, pos as int);
        }
    }
}

/// Every `(` within a statement that parses has its matching `)` within it;
/// a statement takes at least one token.
pub proof fn lemma_stmt_balanced(toks: Seq<TokenView>, lines: Seq<usize>, pos: nat)
    ensures
        parse_stmt(toks, lines, pos) matches Parsed::Done(_, p) ==> pos < p <= toks.len() && balanced(
            toks,
            pos as int,
            p as int,
        ),
    decreases toks.len() - pos, 0nat,
{
    let t = tok_at(toks, pos);
    if pos < toks.len() {
        if t.kind == TokenKind::PRINT {
            lemma_expr_balanced(toks, lines, pos + 1, 0);
            lemma_balanced_plain(toks, pos as int);
            if let Parsed::Done(_, p) = parse_expr(toks, lines, pos + 1, 0) {
                lemma_balanced_join(toks, pos as int, pos + 1int, p as int);
                lemma_end_stmt_balanced(toks, p);
                lemma_balanced_join(toks, pos as int, p as int, end_stmt(toks, p) as int);
            }
        } else if t.kind == TokenKind::VAR {
            let name = tok_at(toks, pos + 1);
            if name.kind == TokenKind::Identifier {
                lemma_balanced_plain(toks, pos as int);
                lemma_balanced_plain(toks, pos + 1int);
                lemma_balanced_join(toks, pos as int, pos + 1int, pos + 2int);
                if tok_at(toks, pos + 2).kind == TokenKind::Equal {
                    lemma_expr_balanced(toks, lines, pos + 3, 0);
                    lemma_balanced_plain(toks, pos + 2int);
                    lemma_balanced_join(toks, pos as int, pos + 2int, pos + 3int);
                    if let Parsed::Done(_, p) = parse_expr(toks, lines, pos + 3, 0) {
                        lemma_balanced_join(toks, pos as int, pos + 3int, p as int);
                        lemma_end_stmt_balanced(toks, p);
                        lemma_balanced_join(toks, pos as int, p as int, end_stmt(toks, p) as int);
                    }
                } else {
                    lemma_end_stmt_balanced(toks, pos + 2);
                    lemma_balanced_join(toks, pos as int, pos + 2int, end_stmt(toks, pos + 2) as int);
                }
            }
        } else if t.kind == TokenKind::LeftBrace {
            lemma_balanced_plain(toks, pos as int);
            lemma_block_balanced(toks, lines, pos + 1, Seq::empty());
            if let Parsed::Done(_, p) = parse_block(toks, lines, pos + 1, Seq::empty()) {
                lemma_balanced_join(toks, pos as int, pos + 1int, p as int);
            }
        } else if t.kind != TokenKind::RightBrace {
            lemma_expr_balanced(toks, lines, pos, 0);
            if let Parsed::Done(_, p) = parse_expr(toks, lines, pos, 0) {
                lemma_end_stmt_balanced(toks, p);
                lemma_balanced_join(toks, pos as int, p as int, end_stmt(toks, p) as int);
            }
        }
    }
}

pub proof fn lemma_block_balanced(
    toks: Seq<TokenView>,
    lines: Seq<usize>,
    pos: nat,
    done: Seq<StmtV>,
)
    ensures
        parse_block(toks, lines, pos, done) matches Parsed::Done(_, p) ==> pos < p <= toks.len()
            && balanced(toks, pos as int, p as int),
    decreases toks.len() - pos, 1nat,
{
    let t = tok_at(toks, pos);
    if pos < toks.len() && t.kind != TokenKind::Eof {
        if t.kind == TokenKind::RightBrace {
            lemma_balanced_plain(toks, pos as int);
        } else {
            lemma_stmt_balanced(toks, lines, pos);
            if let Parsed::Done(s, p) = parse_stmt(toks, lines, pos) {
                if pos < p <= toks.len() {
                    lemma_block_balanced(toks, lines, p, done.push(s));
                    if let Parsed::Done(_, q) = parse_block(toks, lines, p, done.push(s)) {
                        lemma_balanced_join(toks, pos as int, p as int, q as int);
                    }
                }
            }
        }
    }
}

} // verus!
