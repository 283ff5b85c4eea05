//! Syntax trees of expressions and statements, their mathematical views, and
//! their printed forms.
use vstd::prelude::*;
use vstd::string::*;

verus! {

/// A variable name.
#[derive(Clone, Debug)]
pub struct Ident(pub String);

/// A literal value as written in the source. A number keeps its canonical text.
#[derive(Clone, Debug)]
pub enum Literal {
    Str(String),
    Number(String),
    Logical(bool),
    Nil,
}

#[derive(Clone, Copy, PartialEq, Eq, Debug, Structural)]
pub enum UnaryKind {
    Negation,
    LogicalNot,
}

#[derive(Clone, Copy, PartialEq, Eq, Debug, Structural)]
pub enum BinaryKind {
    Addition,
    Subtraction,
    Multiplication,
    Division,
    Less,
    LessEqual,
    Greater,
    GreaterEqual,
    Equality,
    NotEquality,
}

/// An expression. Operators keep the line they were written on.
#[derive(Debug)]
pub enum Expr {
    Literal(Literal),
    Unary(UnaryKind, Box<Expr>, usize),
    Binary { op: BinaryKind, left: Box<Expr>, right: Box<Expr>, line: usize },
    Group(Box<Expr>),
    Ident(Ident),
    Assignment(Ident, Box<Expr>),
}

/// A statement. A declaration without initializer holds the `nil` literal.
#[derive(Debug)]
pub enum Stmt {
    Expr(Expr),
    Print(Expr),
    Declaration(Ident, Expr),
    Block(Vec<Stmt>),
}

pub enum LiteralV {
    Str(Seq<char>),
    Number(Seq<char>),
    Logical(bool),
    Nil,
}

pub enum ExprV {
    Literal(LiteralV),
    Unary(UnaryKind, Box<ExprV>, usize),
    Binary(BinaryKind, Box<ExprV>, Box<ExprV>, usize),
    Group(Box<ExprV>),
    Ident(Seq<char>),
    Assignment(Seq<char>, Box<ExprV>),
}

pub enum StmtV {
    Expr(ExprV),
    Print(ExprV),
    Declaration(Seq<char>, ExprV),
    Block(Seq<StmtV>),
}

impl View for Literal {
    type V = LiteralV;

    open spec fn view(&self) -> LiteralV {
        match self {
            Literal::Str(s) => LiteralV::Str(s@),
            Literal::Number(s) => LiteralV::Number(s@),
            Literal::Logical(b) => LiteralV::Logical(*b),
            Literal::Nil => LiteralV::Nil,
        }
    }
}

pub open spec fn expr_view(e: Expr) -> ExprV
    decreases e,
{
    match e {
        Expr::Literal(l) => ExprV::Literal(l@),
        Expr::Unary(k, operand, line) => ExprV::Unary(k, Box::new(expr_view(*operand)), line),
        Expr::Binary { op, left, right, line } => ExprV::Binary(
            op,
            Box::new(expr_view(*left)),
            Box::new(expr_view(*right)),
            line,
        ),
        Expr::Group(inner) => ExprV::Group(Box::new(expr_view(*inner))),
        Expr::Ident(n) => ExprV::Ident(n.0@),
        Expr::Assignment(n, rhs) => ExprV::Assignment(n.0@, Box::new(expr_view(*rhs))),
    }
}

impl View for Expr {
    type V = ExprV;

    open spec fn view(&self) -> ExprV {
        expr_view(*self)
    }
}

pub open spec fn stmt_view(s: Stmt) -> StmtV
    decreases s,
{
    match s {
        Stmt::Expr(e) => StmtV::Expr(e@),
        Stmt::Print(e) => StmtV::Print(e@),
        Stmt::Declaration(n, e) => StmtV::Declaration(n.0@, e@),
        Stmt::Block(v) => StmtV::Block(
            Seq::new(v@.len(), |i: int| if 0 <= i < v@.len() { stmt_view(v@[i]) } else { StmtV::Block(Seq::empty()) }),
        ),
    }
}

/// The views of a list of statements.
pub open spec fn stmts_view(v: Seq<Stmt>) -> Seq<StmtV> {
    Seq::new(v.len(), |i: int| v[i]@)
}

impl View for Stmt {
    type V = StmtV;

    open spec fn view(&self) -> StmtV {
        stmt_view(*self)
    }
}

pub open spec fn unary_text(k: UnaryKind) -> Seq<char> {
    match k {
        UnaryKind::Negation => "-"@,
        UnaryKind::LogicalNot => "!"@,
    }
}

pub fn unary_str(k: UnaryKind) -> (r: &'static str)
    ensures
        r@ == unary_text(k),
{
    match k {
        UnaryKind::Negation => "-",
        UnaryKind::LogicalNot => "!",
    }
}

pub open spec fn binary_text(k: BinaryKind) -> Seq<char> {
    match k {
        BinaryKind::Addition => "+"@,
        BinaryKind::Subtraction => "-"@,
        BinaryKind::Multiplication => "*"@,
        BinaryKind::Division => "/"@,
        BinaryKind::Less => "<"@,
        BinaryKind::LessEqual => "<="@,
        BinaryKind::Greater => ">"@,
        BinaryKind::GreaterEqual => ">="@,
        BinaryKind::Equality => "=="@,
        BinaryKind::NotEquality => "!="@,
    }
}

pub fn binary_str(k: BinaryKind) -> (r: &'static str)
    ensures
        r@ == binary_text(k),
{
    match k {
        BinaryKind::Addition => "+",
        BinaryKind::Subtraction => "-",
        BinaryKind::Multiplication => "*",
        BinaryKind::Division => "/",
        BinaryKind::Less => "<",
        BinaryKind::LessEqual => "<=",
        BinaryKind::Greater => ">",
        BinaryKind::GreaterEqual => ">=",
        BinaryKind::Equality => "==",
        BinaryKind::NotEquality => "!=",
    }
}

pub open spec fn bool_text(b: bool) -> Seq<char> {
    if b {
        "true"@
    } else {
        "false"@
    }
}

pub fn bool_str(b: bool) -> (r: &'static str)
    ensures
        r@ == bool_text(b),
{
    if b {
        "true"
    } else {
        "false"
    }
}

/// The printed form of a literal: its canonical text, without quotes for a string.
pub open spec fn literal_text(l: LiteralV) -> Seq<char> {
    match l {
        LiteralV::Str(s) => s,
        LiteralV::Number(s) => s,
        LiteralV::Logical(b) => bool_text(b),
        LiteralV::Nil => "nil"@,
    }
}

/// The printed form of an expression, in prefix notation with explicit grouping.
pub open spec fn expr_text(e: ExprV) -> Seq<char>
    decreases e,
{
    match e {
        ExprV::Literal(l) => literal_text(l),
        ExprV::Unary(k, x, _) => "("@ + unary_text(k) + " "@ + expr_text(*x) + ")"@,
        ExprV::Binary(k, l, r, _) => "("@ + binary_text(k) + " "@ + expr_text(*l) + " "@
            + expr_text(*r) + ")"@,
        ExprV::Group(x) => "(group "@ + expr_text(*x) + ")"@,
        ExprV::Ident(n) => n,
        ExprV::Assignment(n, x) => n + " = "@ + expr_text(*x),
    }
}

/// The printed form of a statement; a block prints each of its statements on
/// a line of its own between braces.
pub open spec fn stmt_text(s: StmtV) -> Seq<char>
    decreases s, 0int,
{
    match s {
        StmtV::Expr(e) => expr_text(e),
        StmtV::Print(e) => "print "@ + expr_text(e) + ";"@,
        StmtV::Declaration(n, e) => "var "@ + n + " = "@ + expr_text(e) + ";"@,
        StmtV::Block(v) => "{\n"@ + block_text(v, v.len() as int) + "}"@,
    }
}

/// The printed forms of the first `k` statements of `v`, each followed by a newline.
pub open spec fn block_text(v: Seq<StmtV>, k: int) -> Seq<char>
    decreases v, k,
{
    if k <= 0 || k > v.len() {
        Seq::empty()
    } else {
        block_text(v, k - 1) + stmt_text(v[k - 1]) + "\n"@
    }
}

impl Literal {
    /// The printed form of the literal.
    pub fn to_text(&self) -> (r: String)
        ensures
            r@ == literal_text(self@),
    {
        match self {
            Literal::Str(s) => s.clone(),
            Literal::Number(s) => s.clone(),
            Literal::Logical(b) => String::from_str(bool_str(*b)),
            Literal::Nil => String::from_str("nil"),
        }
    }
}

impl Expr {
    /// The printed form of the expression.
    pub fn to_text(&self) -> (r: String)
        ensures
            r@ == expr_text(self@),
        decreases self,
    {
        match self {
            Expr::Literal(l) => l.to_text(),
            Expr::Unary(k, x, _) => {
                let inner = x.to_text();
                let mut r = String::from_str("(");
                r.append(unary_str(*k));
                r.append(" ");
                r.append(inner.as_str());
                r.append(")");
                r
            },
            Expr::Binary { op, left, right, .. } => {
                let l = left.to_text();
                let rt = right.to_text();
                let mut r = String::from_str("(");
                r.append(binary_str(*op));
                r.append(" ");
                r.append(l.as_str());
                r.append(" ");
                r.append(rt.as_str());
                r.append(")");
                r
            },
            Expr::Group(x) => {
                let inner = x.to_text();
                let mut r = String::from_str("(group ");
                r.append(inner.as_str());
                r.append(")");
                r
            },
            Expr::Ident(n) => n.0.clone(),
            Expr::Assignment(n, x) => {
                let inner = x.to_text();
                let mut r = n.0.clone();
                r.append(" = ");
                r.append(inner.as_str());
                r
            },
        }
    }
}

impl Stmt {
    /// The printed form of the statement.
    pub fn to_text(&self) -> (r: String)
        ensures
            r@ == stmt_text(self@),
        decreases self,
    {
        match self {
            Stmt::Expr(e) => e.to_text(),
            Stmt::Print(e) => {
                let inner = e.to_text();
                let mut r = String::from_str("print ");
                r.append(inner.as_str());
                r.append(";");
                r
            },
            Stmt::Declaration(n, e) => {
                let inner = e.to_text();
                let mut r = String::from_str("var ");
                r.append(n.0.as_str());
                r.append(" = ");
                r.append(inner.as_str());
                r.append(";");
                r
            },
            Stmt::Block(v) => {
                let body = block_to_text(v);
                proof {
                    let items = match self@ {
                        StmtV::Block(items) => items,
                        _ => Seq::empty(),
                    };
                    assert(items =~= Seq::new(v@.len(), |i: int| v@[i]@));
                }
                let mut r = String::from_str("{\n");
                r.append(body.as_str());
                r.append("}");
                r
            },
        }
    }
}

/// The printed forms of the statements of a block, each followed by a newline.
fn block_to_text(v: &Vec<Stmt>) -> (r: String)
    ensures
        r@ == block_text(Seq::new(v@.len(), |i: int| v@[i]@), v@.len() as int),
    decreases v,
{
    let ghost items = Seq::new(v@.len(), |i: int| v@[i]@);
    let mut body = String::new();
    let mut i: usize = 0;
    while i < v.len()
        invariant
            i <= v@.len(),
            items == Seq::new(v@.len(), |i: int| v@[i]@),
            body@ == block_text(items, i as int),
        decreases v.len() - i,
    {
        proof {
            vstd::std_specs::vec::axiom_vec_index_decreases(*v, i as int);
        }
        let line = v[i].to_text();
        body.append(line.as_str());
        body.append("\n");
        i = i + 1;
    }
    body
}

} // verus!
