//! Tokens: their kinds, their text, and the canonical form of number literals.
use vstd::prelude::*;
use vstd::string::*;

use crate::text::chars_of;

verus! {

/// The category of a token.
#[derive(Clone, Copy, PartialEq, Eq, Debug, Structural)]
pub enum TokenKind {
    LeftParen,
    RightParen,
    LeftBrace,
    RightBrace,
    Star,
    Dot,
    Comma,
    Plus,
    Minus,
    Semicolon,
    Slash,
    Equal,
    EqualEqual,
    Bang,
    BangEqual,
    Less,
    LessEqual,
    Greater,
    GreaterEqual,
    StringLiteral,
    NumberLiteral,
    Identifier,
    AND,
    CLASS,
    ELSE,
    FALSE,
    FOR,
    FUN,
    IF,
    NIL,
    OR,
    PRINT,
    RETURN,
    SUPER,
    THIS,
    TRUE,
    VAR,
    WHILE,
    Eof,
}

/// A token: its kind, the exact source text it was read from, and, for string
/// and number tokens, its literal value.
#[derive(Clone, Debug)]
pub struct Token {
    pub kind: TokenKind,
    pub lexeme: String,
    pub literal: Option<String>,
}

/// The mathematical value of a token.
pub struct TokenView {
    pub kind: TokenKind,
    pub lexeme: Seq<char>,
    pub literal: Option<Seq<char>>,
}

pub open spec fn opt_view(o: Option<String>) -> Option<Seq<char>> {
    match o {
        Some(s) => Some(s@),
        None => None,
    }
}

impl View for Token {
    type V = TokenView;

    open spec fn view(&self) -> TokenView {
        TokenView { kind: self.kind, lexeme: self.lexeme@, literal: opt_view(self.literal) }
    }
}

pub open spec fn is_digit(c: char) -> bool {
    '0' <= c <= '9'
}

pub open spec fn is_alpha(c: char) -> bool {
    ('a' <= c <= 'z') || ('A' <= c <= 'Z') || c == '_'
}

/// Characters that may continue an identifier.
pub open spec fn is_ident_char(c: char) -> bool {
    is_alpha(c) || is_digit(c)
}

/// `s` with every trailing `0` removed.
pub open spec fn trim_zeros(s: Seq<char>) -> Seq<char>
    decreases s.len(),
{
    if s.len() > 0 && s.last() == '0' {
        trim_zeros(s.drop_last())
    } else {
        s
    }
}

/// The canonical text of a number literal: a decimal point is always present,
/// and no zero trails the fractional part but the one that may follow the point.
pub open spec fn canonical_number(s: Seq<char>) -> Seq<char> {
    if !s.contains('.') {
        s + seq!['.', '0']
    } else {
        let t = trim_zeros(s);
        if t.len() > 0 && t.last() == '.' {
            t.push('0')
        } else {
            t
        }
    }
}

/// The kind of a reserved word, if `w` is one.
pub open spec fn keyword_of(w: Seq<char>) -> Option<TokenKind> {
    if w == seq!['a', 'n', 'd'] {
        Some(TokenKind::AND)
    } else if w == seq!['c', 'l', 'a', 's', 's'] {
        Some(TokenKind::CLASS)
    } else if w == seq!['e', 'l', 's', 'e'] {
        Some(TokenKind::ELSE)
    } else if w == seq!['f', 'a', 'l', 's', 'e'] {
        Some(TokenKind::FALSE)
    } else if w == seq!['f', 'o', 'r'] {
        Some(TokenKind::FOR)
    } else if w == seq!['f', 'u', 'n'] {
        Some(TokenKind::FUN)
    } else if w == seq!['i', 'f'] {
        Some(TokenKind::IF)
    } else if w == seq!['n', 'i', 'l'] {
        Some(TokenKind::NIL)
    } else if w == seq!['o', 'r'] {
        Some(TokenKind::OR)
    } else if w == seq!['p', 'r', 'i', 'n', 't'] {
        Some(TokenKind::PRINT)
    } else if w == seq!['r', 'e', 't', 'u', 'r', 'n'] {
        Some(TokenKind::RETURN)
    } else if w == seq!['s', 'u', 'p', 'e', 'r'] {
        Some(TokenKind::SUPER)
    } else if w == seq!['t', 'h', 'i', 's'] {
        Some(TokenKind::THIS)
    } else if w == seq!['t', 'r', 'u', 'e'] {
        Some(TokenKind::TRUE)
    } else if w == seq!['v', 'a', 'r'] {
        Some(TokenKind::VAR)
    } else if w == seq!['w', 'h', 'i', 'l', 'e'] {
        Some(TokenKind::WHILE)
    } else {
        None
    }
}

/// Whether `w` spells exactly the characters of `k`.
pub fn spells(w: &[char], k: &[char]) -> (r: bool)
    ensures
        r == (w@ == k@),
{
    if w.len() != k.len() {
        return false;
    }
    let mut i: usize = 0;
    while i < w.len()
        invariant
            w@.len() == k@.len(),
            i <= w@.len(),
            w@.subrange(0, i as int) == k@.subrange(0, i as int),
        decreases w.len() - i,
    {
        if w[i] != k[i] {
            return false;
        }
        assert(w@.subrange(0, i + 1) =~= w@.subrange(0, i as int).push(w@[i as int]));
        assert(k@.subrange(0, i + 1) =~= k@.subrange(0, i as int).push(k@[i as int]));
        i = i + 1;
    }
    assert(w@ =~= w@.subrange(0, i as int));
    assert(k@ =~= k@.subrange(0, i as int));
    true
}

/// The kind of the reserved word `w`, if it is one.
pub fn keyword_kind(w: &[char]) -> (r: Option<TokenKind>)
    ensures
        r == keyword_of(w@),
{
    if spells(w, &['a', 'n', 'd']) {
        Some(TokenKind::AND)
    } else if spells(w, &['c', 'l', 'a', 's', 's']) {
        Some(TokenKind::CLASS)
    } else if spells(w, &['e', 'l', 's', 'e']) {
        Some(TokenKind::ELSE)
    } else if spells(w, &['f', 'a', 'l', 's', 'e']) {
        Some(TokenKind::FALSE)
    } else if spells(w, &['f', 'o', 'r']) {
        Some(TokenKind::FOR)
    } else if spells(w, &['f', 'u', 'n']) {
        Some(TokenKind::FUN)
    } else if spells(w, &['i', 'f']) {
        Some(TokenKind::IF)
    } else if spells(w, &['n', 'i', 'l']) {
        Some(TokenKind::NIL)
    } else if spells(w, &['o', 'r']) {
        Some(TokenKind::OR)
    } else if spells(w, &['p', 'r', 'i', 'n', 't']) {
        Some(TokenKind::PRINT)
    } else if spells(w, &['r', 'e', 't', 'u', 'r', 'n']) {
        Some(TokenKind::RETURN)
    } else if spells(w, &['s', 'u', 'p', 'e', 'r']) {
        Some(TokenKind::SUPER)
    } else if spells(w, &['t', 'h', 'i', 's']) {
        Some(TokenKind::THIS)
    } else if spells(w, &['t', 'r', 'u', 'e']) {
        Some(TokenKind::TRUE)
    } else if spells(w, &['v', 'a', 'r']) {
        Some(TokenKind::VAR)
    } else if spells(w, &['w', 'h', 'i', 'l', 'e']) {
        Some(TokenKind::WHILE)
    } else {
        None
    }
}

/// The printed name of a token kind.
pub open spec fn kind_name(k: TokenKind) -> Seq<char> {
    match k {
        TokenKind::LeftParen => "LEFT_PAREN"@,
        TokenKind::RightParen => "RIGHT_PAREN"@,
        TokenKind::LeftBrace => "LEFT_BRACE"@,
        TokenKind::RightBrace => "RIGHT_BRACE"@,
        TokenKind::Star => "STAR"@,
        TokenKind::Dot => "DOT"@,
        TokenKind::Comma => "COMMA"@,
        TokenKind::Plus => "PLUS"@,
        TokenKind::Minus => "MINUS"@,
        TokenKind::Semicolon => "SEMICOLON"@,
        TokenKind::Slash => "SLASH"@,
        TokenKind::Equal => "EQUAL"@,
        TokenKind::EqualEqual => "EQUAL_EQUAL"@,
        TokenKind::Bang => "BANG"@,
        TokenKind::BangEqual => "BANG_EQUAL"@,
        TokenKind::Less => "LESS"@,
        TokenKind::LessEqual => "LESS_EQUAL"@,
        TokenKind::Greater => "GREATER"@,
        TokenKind::GreaterEqual => "GREATER_EQUAL"@,
        TokenKind::StringLiteral => "STRING"@,
        TokenKind::NumberLiteral => "NUMBER"@,
        TokenKind::Identifier => "IDENTIFIER"@,
        TokenKind::AND => "AND"@,
        TokenKind::CLASS => "CLASS"@,
        TokenKind::ELSE => "ELSE"@,
        TokenKind::FALSE => "FALSE"@,
        TokenKind::FOR => "FOR"@,
        TokenKind::FUN => "FUN"@,
        TokenKind::IF => "IF"@,
        TokenKind::NIL => "NIL"@,
        TokenKind::OR => "OR"@,
        TokenKind::PRINT => "PRINT"@,
        TokenKind::RETURN => "RETURN"@,
        TokenKind::SUPER => "SUPER"@,
        TokenKind::THIS => "THIS"@,
        TokenKind::TRUE => "TRUE"@,
        TokenKind::VAR => "VAR"@,
        TokenKind::WHILE => "WHILE"@,
        TokenKind::Eof => "EOF"@,
    }
}

/// The printed name of a token kind, as text.
pub fn kind_name_str(k: TokenKind) -> (r: &'static str)
    ensures
        r@ == kind_name(k),
{
    match k {
        TokenKind::LeftParen => "LEFT_PAREN",
        TokenKind::RightParen => "RIGHT_PAREN",
        TokenKind::LeftBrace => "LEFT_BRACE",
        TokenKind::RightBrace => "RIGHT_BRACE",
        TokenKind::Star => "STAR",
        TokenKind::Dot => "DOT",
        TokenKind::Comma => "COMMA",
        TokenKind::Plus => "PLUS",
        TokenKind::Minus => "MINUS",
        TokenKind::Semicolon => "SEMICOLON",
        TokenKind::Slash => "SLASH",
        TokenKind::Equal => "EQUAL",
        TokenKind::EqualEqual => "EQUAL_EQUAL",
        TokenKind::Bang => "BANG",
        TokenKind::BangEqual => "BANG_EQUAL",
        TokenKind::Less => "LESS",
        TokenKind::LessEqual => "LESS_EQUAL",
        TokenKind::Greater => "GREATER",
        TokenKind::GreaterEqual => "GREATER_EQUAL",
        TokenKind::StringLiteral => "STRING",
        TokenKind::NumberLiteral => "NUMBER",
        TokenKind::Identifier => "IDENTIFIER",
        TokenKind::AND => "AND",
        TokenKind::CLASS => "CLASS",
        TokenKind::ELSE => "ELSE",
        TokenKind::FALSE => "FALSE",
        TokenKind::FOR => "FOR",
        TokenKind::FUN => "FUN",
        TokenKind::IF => "IF",
        TokenKind::NIL => "NIL",
        TokenKind::OR => "OR",
        TokenKind::PRINT => "PRINT",
        TokenKind::RETURN => "RETURN",
        TokenKind::SUPER => "SUPER",
        TokenKind::THIS => "THIS",
        TokenKind::TRUE => "TRUE",
        TokenKind::VAR => "VAR",
        TokenKind::WHILE => "WHILE",
        TokenKind::Eof => "EOF",
    }
}

/// The printed form of a token: its kind's name, its lexeme, and its literal
/// or the word `null`, separated by single spaces.
pub open spec fn token_line(t: TokenView) -> Seq<char> {
    kind_name(t.kind) + " "@ + t.lexeme + " "@ + match t.literal {
        Some(l) => l,
        None => "null"@,
    }
}

/// The index of the first `.` in `s` at or after `i`, or `s.len()`.
pub open spec fn dot_from(s: Seq<char>, i: int) -> int
    decreases s.len() - i,
{
    if i < 0 || i >= s.len() {
        s.len() as int
    } else if s[i] == '.' {
        i
    } else {
        dot_from(s, i + 1)
    }
}

proof fn lemma_dot_from(s: Seq<char>, i: int)
    requires
        0 <= i <= s.len(),
    ensures
        i <= dot_from(s, i) <= s.len(),
        dot_from(s, i) < s.len() ==> s[dot_from(s, i)] == '.',
        forall|j: int| i <= j < dot_from(s, i) ==> s[j] != '.',
    decreases s.len() - i,
{
    if i < s.len() && s[i] != '.' {
        lemma_dot_from(s, i + 1);
    }
}

/// The canonical text of the number literal `s`.
fn canonical_text(s: &str) -> (r: String)
    ensures
        r@ == canonical_number(s@),
{
    let cs = chars_of(s);
    let mut i: usize = 0;
    while i < cs.len() && cs[i] != '.'
        invariant
            cs@ == s@,
            i <= cs@.len(),
            dot_from(cs@, 0) == dot_from(cs@, i as int),
        decreases cs.len() - i,
    {
        i = i + 1;
    }
    proof {
        lemma_dot_from(cs@, 0);
    }
    if i == cs.len() {
        assert(!s@.contains('.'));
        let mut r = String::from_str(s);
        proof {
            reveal_strlit(".0");
        }
        r.append(".0");
        assert(r@ =~= s@ + seq!['.', '0']);
        return r;
    }
    assert(s@.contains('.')) by {
        assert(s@[i as int] == '.');
    }
    let mut end: usize = cs.len();
    assert(cs@ =~= cs@.subrange(0, cs@.len() as int));
    while end > 0 && cs[end - 1] == '0'
        invariant
            cs@ == s@,
            end <= cs@.len(),
            trim_zeros(cs@) == trim_zeros(cs@.subrange(0, end as int)),
        decreases end,
    {
        assert(cs@.subrange(0, end as int).drop_last() =~= cs@.subrange(0, end - 1));
        end = end - 1;
    }
    assert(trim_zeros(s@) == cs@.subrange(0, end as int));
    let t = s.substring_char(0, end);
    let mut r = String::from_str(t);
    if end > 0 && cs[end - 1] == '.' {
        proof {
            reveal_strlit("0");
        }
        r.append("0");
        assert(r@ =~= trim_zeros(s@).push('0'));
    }
    r
}

impl Token {
    /// The end-of-input token: empty lexeme, no literal.
    pub fn eof() -> (t: Token)
        ensures
            t@.kind == TokenKind::Eof,
            t@.lexeme == Seq::<char>::empty(),
            t@.literal is None,
    {
        Token { kind: TokenKind::Eof, lexeme: String::new(), literal: None }
    }

    /// A token of `kind` read from the text `lexeme`, with no literal.
    pub fn plain(kind: TokenKind, lexeme: String) -> (t: Token)
        ensures
            t@.kind == kind,
            t@.lexeme == lexeme@,
            t@.literal is None,
    {
        Token { kind, lexeme, literal: None }
    }

    /// A string token from its quoted text; the literal is the text between the quotes.
    pub fn string_literal(s: String) -> (t: Token)
        requires
            s@.len() >= 2,
            s@[0] == '"',
            s@.last() == '"',
        ensures
            t@.kind == TokenKind::StringLiteral,
            t@.lexeme == s@,
            t@.literal == Some(s@.subrange(1, s@.len() - 1)),
    {
        let n = s.as_str().unicode_len();
        let inner = String::from_str(s.as_str().substring_char(1, n - 1));
        Token { kind: TokenKind::StringLiteral, lexeme: s, literal: Some(inner) }
    }

    /// A number token from its source text; the literal is the canonical text.
    pub fn number_literal(s: String) -> (t: Token)
        ensures
            t@.kind == TokenKind::NumberLiteral,
            t@.lexeme == s@,
            t@.literal == Some(canonical_number(s@)),
    {
        let lit = canonical_text(s.as_str());
        Token { kind: TokenKind::NumberLiteral, lexeme: s, literal: Some(lit) }
    }

    /// An identifier token.
    pub fn identifier(s: String) -> (t: Token)
        ensures
            t@.kind == TokenKind::Identifier,
            t@.lexeme == s@,
            t@.literal is None,
    {
        Token { kind: TokenKind::Identifier, lexeme: s, literal: None }
    }

    /// The token of the reserved word `s`.
    pub fn reserved(s: String) -> (t: Token)
        requires
            keyword_of(s@) is Some,
        ensures
            t@.kind == keyword_of(s@)->0,
            t@.lexeme == s@,
            t@.literal is None,
    {
        let cs = chars_of(s.as_str());
        let kind = keyword_kind(cs.as_slice());
        match kind {
            Some(k) => Token { kind: k, lexeme: s, literal: None },
            None => Token { kind: TokenKind::Identifier, lexeme: s, literal: None },
        }
    }

    /// The printed form of the token (`KIND LEXEME LITERAL`, `null` for no literal).
    pub fn to_line(&self) -> (r: String)
        ensures
            r@ == token_line(self@),
    {
        let mut r = String::from_str(kind_name_str(self.kind));
        r.append(" ");
        r.append(self.lexeme.as_str());
        r.append(" ");
        match &self.literal {
            Some(l) => r.append(l.as_str()),
            None => r.append("null"),
        }
        r
    }
}

} // verus!
