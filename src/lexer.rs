//! The lexer: turns source text into tokens, one token per pull.
use vstd::prelude::*;
use vstd::string::*;

use crate::text::chars_of;
use crate::tokens::{
    canonical_number, is_alpha, is_digit, is_ident_char, keyword_kind, keyword_of, trim_zeros, Token,
    TokenKind, TokenView,
};

verus! {

/// An error found while reading the source. Reading goes on after one.
#[derive(Clone, Copy, PartialEq, Eq, Debug, Structural)]
pub enum LexerError {
    UnexpectedCharacter { line: usize, ch: char },
    UnterminatedString(usize),
}

pub open spec fn is_space(c: char) -> bool {
    c == ' ' || c == '\t' || c == '\r' || c == '\n'
}

/// The kind of a one-character punctuation token.
pub open spec fn single_kind(c: char) -> Option<TokenKind> {
    if c == '(' {
        Some(TokenKind::LeftParen)
    } else if c == ')' {
        Some(TokenKind::RightParen)
    } else if c == '{' {
        Some(TokenKind::LeftBrace)
    } else if c == '}' {
        Some(TokenKind::RightBrace)
    } else if c == ',' {
        Some(TokenKind::Comma)
    } else if c == '.' {
        Some(TokenKind::Dot)
    } else if c == '-' {
        Some(TokenKind::Minus)
    } else if c == '+' {
        Some(TokenKind::Plus)
    } else if c == ';' {
        Some(TokenKind::Semicolon)
    } else if c == '*' {
        Some(TokenKind::Star)
    } else {
        None
    }
}

/// The first characters of the operators that may be followed by `=`.
pub open spec fn is_operator_start(c: char) -> bool {
    c == '=' || c == '!' || c == '<' || c == '>'
}

/// The kind of the operator that starts with `c`, with `=` after it or not.
pub open spec fn operator_kind(c: char, with_equal: bool) -> TokenKind {
    if c == '=' {
        if with_equal { TokenKind::EqualEqual } else { TokenKind::Equal }
    } else if c == '!' {
        if with_equal { TokenKind::BangEqual } else { TokenKind::Bang }
    } else if c == '<' {
        if with_equal { TokenKind::LessEqual } else { TokenKind::Less }
    } else {
        if with_equal { TokenKind::GreaterEqual } else { TokenKind::Greater }
    }
}

/// Whether a token can start with `c`.
pub open spec fn starts_token(c: char) -> bool {
    single_kind(c) is Some || is_operator_start(c) || c == '/' || c == '"' || is_digit(c)
        || is_alpha(c)
}

pub open spec fn is_comment_at(s: Seq<char>, pos: nat) -> bool {
    pos + 1 < s.len() && s[pos as int] == '/' && s[pos + 1int] == '/'
}

/// The first index at or after `i` whose character is `c`, or `s.len()`.
pub open spec fn find_from(s: Seq<char>, i: nat, c: char) -> nat
    decreases s.len() - i,
{
    if i >= s.len() {
        s.len()
    } else if s[i as int] == c {
        i
    } else {
        find_from(s, i + 1, c)
    }
}

/// The end of the run of digits that starts at `i`.
pub open spec fn digits_end(s: Seq<char>, i: nat) -> nat
    decreases s.len() - i,
{
    if i < s.len() && is_digit(s[i as int]) {
        digits_end(s, i + 1)
    } else {
        i
    }
}

/// The end of the run of identifier characters that starts at `i`.
pub open spec fn ident_end(s: Seq<char>, i: nat) -> nat
    decreases s.len() - i,
{
    if i < s.len() && is_ident_char(s[i as int]) {
        ident_end(s, i + 1)
    } else {
        i
    }
}

/// The end of the number that starts at `i`: digits, then at most one `.`
/// that is followed by more digits.
pub open spec fn number_end(s: Seq<char>, i: nat) -> nat {
    let d = digits_end(s, i);
    if d + 1 < s.len() && s[d as int] == '.' && is_digit(s[d + 1int]) {
        digits_end(s, d + 1)
    } else {
        d
    }
}

pub proof fn lemma_find_from(s: Seq<char>, i: nat, c: char)
    requires
        i <= s.len(),
    ensures
        i <= find_from(s, i, c) <= s.len(),
        find_from(s, i, c) < s.len() ==> s[find_from(s, i, c) as int] == c,
        forall|j: int| i <= j < find_from(s, i, c) ==> s[j] != c,
    decreases s.len() - i,
{
    if i < s.len() && s[i as int] != c {
        lemma_find_from(s, i + 1, c);
    }
}

pub proof fn lemma_digits_end(s: Seq<char>, i: nat)
    requires
        i <= s.len(),
    ensures
        i <= digits_end(s, i) <= s.len(),
        digits_end(s, i) < s.len() ==> !is_digit(s[digits_end(s, i) as int]),
        forall|j: int| i <= j < digits_end(s, i) ==> is_digit(s[j]),
    decreases s.len() - i,
{
    if i < s.len() && is_digit(s[i as int]) {
        lemma_digits_end(s, i + 1);
    }
}

pub proof fn lemma_ident_end(s: Seq<char>, i: nat)
    requires
        i <= s.len(),
    ensures
        i <= ident_end(s, i) <= s.len(),
    decreases s.len() - i,
{
    if i < s.len() && is_ident_char(s[i as int]) {
        lemma_ident_end(s, i + 1);
    }
}

/// The error for a character that starts no token.
pub open spec fn unexpected(line: nat, c: char) -> LexerError {
    LexerError::UnexpectedCharacter { line: line as usize, ch: c }
}

/// The result of one pull: the token, where reading stopped, the line
/// counter there, and the errors met on the way.
pub struct Scanned {
    pub token: TokenView,
    pub pos: nat,
    pub line: nat,
    pub errors: Seq<LexerError>,
}

pub open spec fn eof_view() -> TokenView {
    TokenView { kind: TokenKind::Eof, lexeme: Seq::empty(), literal: None }
}

/// A token without literal that covers `s[pos..end]`.
pub open spec fn plain_at(s: Seq<char>, pos: nat, end: nat, kind: TokenKind, line: nat) -> Scanned {
    Scanned {
        token: TokenView { kind, lexeme: s.subrange(pos as int, end as int), literal: None },
        pos: end,
        line,
        errors: Seq::empty(),
    }
}

/// The token that starts at `pos`, where a token can start and no comment does.
#[verifier::opaque]
pub open spec fn read_token(s: Seq<char>, pos: nat, line: nat) -> Scanned {
    let c = s[pos as int];
    if single_kind(c) is Some {
        plain_at(s, pos, pos + 1, single_kind(c)->0, line)
    } else if is_operator_start(c) {
        let two = pos + 1 < s.len() && s[pos + 1int] == '=';
        plain_at(s, pos, if two { pos + 2 } else { pos + 1 }, operator_kind(c, two), line)
    } else if c == '/' {
        plain_at(s, pos, pos + 1, TokenKind::Slash, line)
    } else if c == '"' {
        let e = find_from(s, pos + 1, '"');
        if e < s.len() {
            Scanned {
                token: TokenView {
                    kind: TokenKind::StringLiteral,
                    lexeme: s.subrange(pos as int, e + 1int),
                    literal: Some(s.subrange(pos + 1int, e as int)),
                },
                pos: e + 1,
                line,
                errors: Seq::empty(),
            }
        } else {
            Scanned {
                token: eof_view(),
                pos: s.len(),
                line,
                errors: seq![LexerError::UnterminatedString(line as usize)],
            }
        }
    } else if is_digit(c) {
        let e = number_end(s, pos);
        let text = s.subrange(pos as int, e as int);
        Scanned {
            token: TokenView {
                kind: TokenKind::NumberLiteral,
                lexeme: text,
                literal: Some(canonical_number(text)),
            },
            pos: e,
            line,
            errors: Seq::empty(),
        }
    } else {
        let e = ident_end(s, pos + 1);
        let w = s.subrange(pos as int, e as int);
        let kind = match keyword_of(w) {
            Some(k) => k,
            None => TokenKind::Identifier,
        };
        plain_at(s, pos, e, kind, line)
    }
}

/// One pull from position `pos` with line counter `line`: skips whitespace,
/// comments and characters that start no token (each an error), then reads
/// one token, or the end-of-input token at the end.
pub open spec fn scan(s: Seq<char>, pos: nat, line: nat) -> Scanned
    decreases s.len() - pos,
{
    if pos >= s.len() {
        Scanned { token: eof_view(), pos: s.len(), line, errors: Seq::empty() }
    } else {
        let c = s[pos as int];
        if is_space(c) {
            scan(s, pos + 1, if c == '\n' { line + 1 } else { line })
        } else if is_comment_at(s, pos) {
            let e = find_from(s, pos + 2, '\n');
            proof {
                lemma_find_from(s, pos + 2, '\n');
            }
            if e < s.len() {
                scan(s, e + 1, line + 1)
            } else {
                Scanned { token: eof_view(), pos: s.len(), line, errors: Seq::empty() }
            }
        } else if !starts_token(c) {
            let r = scan(s, pos + 1, line);
            Scanned {
                errors: seq![unexpected(line, c)] + r.errors,
                ..r
            }
        } else {
            read_token(s, pos, line)
        }
    }
}

} // verus!

verus! {

/// Every token of the text from `pos` on, up to and including the
/// end-of-input token, with the line counter after each, and the errors met.
pub struct Lexed {
    pub tokens: Seq<TokenView>,
    pub lines: Seq<nat>,
    pub errors: Seq<LexerError>,
}

pub open spec fn scan_all(s: Seq<char>, pos: nat, line: nat) -> Lexed
    decreases s.len() - pos,
{
    let sc = scan(s, pos, line);
    proof {
        lemma_scan_progress(s, pos, line);
    }
    if sc.token.kind == TokenKind::Eof {
        Lexed { tokens: seq![sc.token], lines: seq![sc.line], errors: sc.errors }
    } else {
        let rest = scan_all(s, sc.pos, sc.line);
        Lexed {
            tokens: seq![sc.token] + rest.tokens,
            lines: seq![sc.line] + rest.lines,
            errors: sc.errors + rest.errors,
        }
    }
}

/// A pull never moves back nor decreases the line counter, moves on by at least
/// one character unless it gives the end-of-input token, and gives that token
/// only at the end of the text.
pub proof fn lemma_scan_progress(s: Seq<char>, pos: nat, line: nat)
    ensures
        ({
            let sc = scan(s, pos, line);
            &&& pos <= s.len() ==> pos <= sc.pos
            &&& sc.pos <= s.len()
            &&& line <= sc.line
            &&& pos <= s.len() ==> sc.line - line <= sc.pos - pos
            &&& sc.token.kind != TokenKind::Eof ==> pos < sc.pos
            &&& sc.token.kind == TokenKind::Eof ==> sc.pos == s.len()
        }),
    decreases s.len() - pos,
{
    if pos < s.len() {
        let c = s[pos as int];
        if is_space(c) {
            lemma_scan_progress(s, pos + 1, if c == '\n' { line + 1 } else { line });
        } else if is_comment_at(s, pos) {
            lemma_find_from(s, pos + 2, '\n');
            let e = find_from(s, pos + 2, '\n');
            if e < s.len() {
                lemma_scan_progress(s, e + 1, line + 1);
            }
        } else if !starts_token(c) {
            lemma_scan_progress(s, pos + 1, line);
        } else {
            reveal(read_token);
            lemma_find_from(s, pos + 1, '"');
            lemma_digits_end(s, pos);
            lemma_ident_end(s, pos + 1);
            let d = digits_end(s, pos);
            if d + 1 < s.len() {
                lemma_digits_end(s, d + 1);
            }
            if single_kind(c) is Some {
                assert(single_kind(c)->0 != TokenKind::Eof);
            }
            if is_operator_start(c) {
                assert(operator_kind(c, true) != TokenKind::Eof);
                assert(operator_kind(c, false) != TokenKind::Eof);
            }
            let w = s.subrange(pos as int, ident_end(s, pos + 1) as int);
            if keyword_of(w) is Some {
                assert(keyword_of(w)->0 != TokenKind::Eof);
            }
        }
    }
}

/// A token stream ends with exactly one end-of-input token.
pub proof fn lemma_single_eof(s: Seq<char>, pos: nat, line: nat)
    ensures
        ({
            let t = scan_all(s, pos, line).tokens;
            &&& scan_all(s, pos, line).lines.len() == t.len()
            &&& t.len() >= 1
            &&& t.last().kind == TokenKind::Eof
            &&& forall|i: int| 0 <= i < t.len() - 1 ==> t[i].kind != TokenKind::Eof
        }),
    decreases s.len() - pos,
{
    lemma_scan_progress(s, pos, line);
    let sc = scan(s, pos, line);
    if sc.token.kind != TokenKind::Eof {
        lemma_single_eof(s, sc.pos, sc.line);
        let rest = scan_all(s, sc.pos, sc.line).tokens;
        let t = scan_all(s, pos, line).tokens;
        assert(t == seq![sc.token] + rest);
        assert forall|i: int| 0 <= i < t.len() - 1 implies t[i].kind != TokenKind::Eof by {
            if i > 0 {
                assert(t[i] == rest[i - 1]);
            }
        }
    }
}

/// A string literal's value is the text between its quotes: reading `"x"`,
/// where `x` holds no quote, gives one string token whose literal is `x`.
pub proof fn lemma_string_literal_value(x: Seq<char>, line: nat)
    requires
        !x.contains('"'),
    ensures
        ({
            let src = seq!['"'] + x + seq!['"'];
            let sc = scan(src, 0, line);
            &&& sc.token.kind == TokenKind::StringLiteral
            &&& sc.token.lexeme == src
            &&& sc.token.literal == Some(x)
            &&& sc.pos == src.len()
            &&& sc.errors.len() == 0
        }),
{
    let src = seq!['"'] + x + seq!['"'];
    reveal(read_token);
    assert(src[0] == '"');
    assert(src[src.len() - 1] == '"');
    assert forall|j: int| 1 <= j < src.len() - 1 implies src[j] != '"' by {
        assert(src[j] == x[j - 1]);
    }
    lemma_find_from(src, 1, '"');
    let e = find_from(src, 1, '"');
    assert(e == src.len() - 1);
    assert(src.subrange(1, e as int) =~= x);
    assert(src.subrange(0, e + 1int) =~= src);
}

proof fn lemma_digits_end_exact(s: Seq<char>, i: nat, j: nat)
    requires
        i <= j <= s.len(),
        forall|x: int| i <= x < j ==> is_digit(s[x]),
        j == s.len() || !is_digit(s[j as int]),
    ensures
        digits_end(s, i) == j,
    decreases j - i,
{
    if i < j {
        lemma_digits_end_exact(s, i + 1, j);
    }
}

proof fn lemma_trim_zeros(s: Seq<char>)
    ensures
        trim_zeros(s).len() <= s.len(),
        trim_zeros(s) == s.subrange(0, trim_zeros(s).len() as int),
        forall|x: int| trim_zeros(s).len() <= x < s.len() ==> s[x] == '0',
        trim_zeros(s).len() == 0 || trim_zeros(s).last() != '0',
    decreases s.len(),
{
    if s.len() > 0 && s.last() == '0' {
        lemma_trim_zeros(s.drop_last());
        let t = trim_zeros(s.drop_last());
        assert(s.drop_last().subrange(0, t.len() as int) =~= s.subrange(0, t.len() as int));
        assert forall|x: int| t.len() <= x < s.len() implies s[x] == '0' by {
            if x < s.len() - 1 {
                assert(s.drop_last()[x] == s[x]);
            }
        }
    } else {
        assert(s =~= s.subrange(0, s.len() as int));
    }
}

/// The text `d` is one whole number literal: digits, then at most one `.`
/// followed by more digits.
pub open spec fn is_number_text(d: Seq<char>) -> bool {
    d.len() > 0 && is_digit(d[0]) && number_end(d, 0) == d.len()
}

/// Number canonicalization is idempotent: reading the canonical text of a
/// number literal again gives one number token whose lexeme and literal are
/// that same text.
pub proof fn lemma_canonical_number_stable(d: Seq<char>, line: nat)
    requires
        is_number_text(d),
    ensures
        ({
            let c = canonical_number(d);
            let sc = scan(c, 0, line);
            &&& canonical_number(c) == c
            &&& sc.token.kind == TokenKind::NumberLiteral
            &&& sc.token.lexeme == c
            &&& sc.token.literal == Some(c)
            &&& sc.pos == c.len()
            &&& sc.errors.len() == 0
        }),
{
    reveal(read_token);
    lemma_digits_end(d, 0);
    let k = digits_end(d, 0);
    let c = canonical_number(d);
    if k == d.len() {
        assert(!d.contains('.')) by {
            if d.contains('.') {
                let x = choose|x: int| 0 <= x < d.len() && d[x] == '.';
                assert(is_digit(d[x]));
            }
        }
        assert(c == d + seq!['.', '0']);
        assert(c.drop_last() =~= d + seq!['.']);
        assert(c.contains('.')) by {
            assert(c[d.len() as int] == '.');
        }
        assert(trim_zeros(c) == trim_zeros(d + seq!['.']));
        assert(trim_zeros(d + seq!['.']) == d + seq!['.']);
        assert((d + seq!['.']).push('0') =~= c);
        lemma_digits_end_exact(c, 0, d.len());
        lemma_digits_end_exact(c, d.len() + 1, c.len());
        assert(c.subrange(0, c.len() as int) =~= c);
    } else {
        assert(d[k as int] == '.');
        assert(is_digit(d[k + 1int]));
        lemma_digits_end(d, k + 1);
        assert(d.contains('.'));
        lemma_trim_zeros(d);
        let t = trim_zeros(d);
        let j = t.len();
        assert(j >= k + 1) by {
            if j <= k {
                assert(d[k as int] == '0');
            }
        }
        assert(t[k as int] == '.');
        assert(c.contains('.')) by {
            assert(c[k as int] == '.');
        }
        assert(forall|x: int| 0 <= x < k ==> is_digit(c[x]));
        lemma_digits_end_exact(c, 0, k);
        if j == k + 1 {
            assert(c == t.push('0'));
            assert(c.drop_last() =~= t);
            assert(trim_zeros(c) == trim_zeros(t));
            assert(t.last() == '.');
            assert(trim_zeros(t) == t);
            lemma_digits_end_exact(c, k + 1, c.len());
        } else {
            assert(c == t);
            assert(t.last() != '0');
            assert(trim_zeros(c) == c);
            assert(forall|x: int| k + 1 <= x < j ==> is_digit(c[x]));
            lemma_digits_end_exact(c, k + 1, c.len());
        }
        assert(c.subrange(0, c.len() as int) =~= c);
    }
}

/// The lexeme of a number token is one whole number literal.
pub proof fn lemma_number_lexeme(s: Seq<char>, pos: nat)
    requires
        pos < s.len(),
        is_digit(s[pos as int]),
    ensures
        is_number_text(s.subrange(pos as int, number_end(s, pos) as int)),
{
    lemma_digits_end(s, pos);
    let k = digits_end(s, pos);
    let e = number_end(s, pos);
    let d = s.subrange(pos as int, e as int);
    if k + 1 < s.len() && s[k as int] == '.' && is_digit(s[k + 1int]) {
        lemma_digits_end(s, k + 1);
        lemma_digits_end_exact(d, 0, (k - pos) as nat);
        lemma_digits_end_exact(d, (k - pos + 1) as nat, d.len());
    } else {
        lemma_digits_end_exact(d, 0, d.len());
    }
}

/// Reading the literal of any number token of any source again gives a
/// number token with the same literal.
pub proof fn lemma_number_token_stable(s: Seq<char>, pos: nat, line: nat, again: nat)
    requires
        pos < s.len(),
        is_digit(s[pos as int]),
    ensures
        ({
            let t = read_token(s, pos, line).token;
            &&& t.kind == TokenKind::NumberLiteral
            &&& t.literal is Some
            &&& scan(t.literal->0, 0, again).token.kind == TokenKind::NumberLiteral
            &&& scan(t.literal->0, 0, again).token.literal == t.literal
        }),
{
    reveal(read_token);
    lemma_number_lexeme(s, pos);
    lemma_canonical_number_stable(s.subrange(pos as int, number_end(s, pos) as int), again);
}

proof fn lemma_scan_skips_bad_char(
    s: Seq<char>,
    pos: nat,
    line: nat,
    errors: Seq<LexerError>,
    result: Result<(), LexerError>,
)
    requires
        pos < s.len(),
        !is_space(s[pos as int]),
        !is_comment_at(s, pos),
        !starts_token(s[pos as int]),
    ensures
        ({
            let e = unexpected(line, s[pos as int]);
            let a = scan(s, pos, line);
            let b = scan(s, pos + 1, line);
            &&& a.token == b.token
            &&& a.pos == b.pos
            &&& a.line == b.line
            &&& errors + a.errors == errors.push(e) + b.errors
            &&& first_error(result, a.errors) == first_error(
                first_error(result, seq![e]),
                b.errors,
            )
        }),
{
    let e = unexpected(line, s[pos as int]);
    let b = scan(s, pos + 1, line);
    assert(scan(s, pos, line).errors == seq![e] + b.errors);
    assert(errors + (seq![e] + b.errors) =~= errors.push(e) + b.errors);
    assert((seq![e] + b.errors)[0] == e);
}

/// The error status after `errors` were met, given the status before.
pub open spec fn first_error(
    result: Result<(), LexerError>,
    errors: Seq<LexerError>,
) -> Result<(), LexerError> {
    if result is Ok && errors.len() > 0 {
        Err(errors[0])
    } else {
        result
    }
}

proof fn lemma_first_error_append(
    r: Result<(), LexerError>,
    a: Seq<LexerError>,
    b: Seq<LexerError>,
)
    ensures
        first_error(first_error(r, a), b) == first_error(r, a + b),
{
    if a.len() > 0 {
        assert((a + b)[0] == a[0]);
    } else {
        assert(a + b =~= b);
    }
}

/// The state of a lexer: where it stands in the text, its line counter,
/// whether the end-of-input token was given, the errors met so far and the
/// first of them.
pub struct LexerView {
    pub text: Seq<char>,
    pub pos: nat,
    pub line: nat,
    pub done: bool,
    pub errors: Seq<LexerError>,
    pub result: Result<(), LexerError>,
}

/// The state after the pull `sc` from `v`.
pub open spec fn after_pull(v: LexerView, sc: Scanned) -> LexerView {
    LexerView {
        text: v.text,
        pos: sc.pos,
        line: sc.line,
        done: sc.token.kind == TokenKind::Eof,
        errors: v.errors + sc.errors,
        result: first_error(v.result, sc.errors),
    }
}

/// A pull-based lexer over a source text.
pub struct Lexer {
    source: String,
    chars: Vec<char>,
    cursor: usize,
    current_line: usize,
    done: bool,
    errors: Vec<LexerError>,
    result: Result<(), LexerError>,
}

impl View for Lexer {
    type V = LexerView;

    closed spec fn view(&self) -> LexerView {
        LexerView {
            text: self.chars@,
            pos: self.cursor as nat,
            line: self.current_line as nat,
            done: self.done,
            errors: self.errors@,
            result: self.result,
        }
    }
}

fn find_char(s: &Vec<char>, from: usize, c: char) -> (r: usize)
    requires
        from <= s@.len(),
    ensures
        r == find_from(s@, from as nat, c),
{
    let mut i = from;
    while i < s.len() && s[i] != c
        invariant
            from <= i <= s@.len(),
            find_from(s@, from as nat, c) == find_from(s@, i as nat, c),
        decreases s.len() - i,
    {
        i = i + 1;
    }
    i
}

fn digits_end_at(s: &Vec<char>, from: usize) -> (r: usize)
    requires
        from <= s@.len(),
    ensures
        r == digits_end(s@, from as nat),
{
    let mut i = from;
    while i < s.len() && '0' <= s[i] && s[i] <= '9'
        invariant
            from <= i <= s@.len(),
            digits_end(s@, from as nat) == digits_end(s@, i as nat),
        decreases s.len() - i,
    {
        i = i + 1;
    }
    i
}

fn ident_end_at(s: &Vec<char>, from: usize) -> (r: usize)
    requires
        from <= s@.len(),
    ensures
        r == ident_end(s@, from as nat),
{
    let mut i = from;
    while i < s.len() && is_ident_char_exec(s[i])
        invariant
            from <= i <= s@.len(),
            ident_end(s@, from as nat) == ident_end(s@, i as nat),
        decreases s.len() - i,
    {
        i = i + 1;
    }
    i
}

fn is_ident_char_exec(c: char) -> (r: bool)
    ensures
        r == is_ident_char(c),
{
    ('a' <= c && c <= 'z') || ('A' <= c && c <= 'Z') || c == '_' || ('0' <= c && c <= '9')
}

fn single_kind_of(c: char) -> (r: Option<TokenKind>)
    ensures
        r == single_kind(c),
{
    match c {
        '(' => Some(TokenKind::LeftParen),
        ')' => Some(TokenKind::RightParen),
        '{' => Some(TokenKind::LeftBrace),
        '}' => Some(TokenKind::RightBrace),
        ',' => Some(TokenKind::Comma),
        '.' => Some(TokenKind::Dot),
        '-' => Some(TokenKind::Minus),
        '+' => Some(TokenKind::Plus),
        ';' => Some(TokenKind::Semicolon),
        '*' => Some(TokenKind::Star),
        _ => None,
    }
}

fn operator_kind_of(c: char, with_equal: bool) -> (r: TokenKind)
    ensures
        r == operator_kind(c, with_equal),
{
    if c == '=' {
        if with_equal { TokenKind::EqualEqual } else { TokenKind::Equal }
    } else if c == '!' {
        if with_equal { TokenKind::BangEqual } else { TokenKind::Bang }
    } else if c == '<' {
        if with_equal { TokenKind::LessEqual } else { TokenKind::Less }
    } else {
        if with_equal { TokenKind::GreaterEqual } else { TokenKind::Greater }
    }
}

fn starts_token_exec(c: char) -> (r: bool)
    ensures
        r == starts_token(c),
{
    single_kind_of(c).is_some() || c == '=' || c == '!' || c == '<' || c == '>' || c == '/'
        || c == '"' || ('0' <= c && c <= '9') || ('a' <= c && c <= 'z') || ('A' <= c && c <= 'Z')
        || c == '_'
}

impl Lexer {
    /// Well-formedness: the cursor lies in the text and the line counter is
    /// at most one more than the characters read.
    pub closed spec fn wf(&self) -> bool {
        &&& self.source@ == self.chars@
        &&& self.chars@.len() < usize::MAX
        &&& self.cursor <= self.chars@.len()
        &&& 1 <= self.current_line <= self.cursor + 1
        &&& self.done ==> self.cursor == self.chars@.len()
    }

    /// A lexer at the start of `source`, on line 1.
    pub fn new(source: String) -> (l: Lexer)
        requires
            source@.len() < usize::MAX,
        ensures
            l.wf(),
            l@ == (LexerView {
                text: source@,
                pos: 0,
                line: 1,
                done: false,
                errors: Seq::empty(),
                result: Ok(()),
            }),
    {
        let chars = chars_of(source.as_str());
        Lexer {
            source,
            chars,
            cursor: 0,
            current_line: 1,
            done: false,
            errors: Vec::new(),
            result: Ok(()),
        }
    }

    /// The line counter.
    pub fn line(&self) -> (r: usize)
        ensures
            r == self@.line,
    {
        self.current_line
    }

    /// Ok, or the first error met so far.
    pub fn status(&self) -> (r: Result<(), LexerError>)
        ensures
            r == self@.result,
    {
        self.result
    }

    /// Every error met so far, in order.
    pub fn errors(&self) -> (r: Vec<LexerError>)
        ensures
            r@ == self@.errors,
    {
        self.errors.clone()
    }

    fn record(&mut self, e: LexerError)
        ensures
            final(self).source == old(self).source,
            final(self).chars == old(self).chars,
            final(self).cursor == old(self).cursor,
            final(self).current_line == old(self).current_line,
            final(self).done == old(self).done,
            final(self).errors@ == old(self).errors@.push(e),
            final(self).result == first_error(old(self).result, seq![e]),
    {
        self.errors.push(e);
        if self.result.is_ok() {
            self.result = Err(e);
        }
    }

    fn lexeme(&self, from: usize, to: usize) -> (r: String)
        requires
            self.wf(),
            from <= to <= self.chars@.len(),
        ensures
            r@ == self.chars@.subrange(from as int, to as int),
    {
        String::from_str(self.source.as_str().substring_char(from, to))
    }

    /// Pulls the next token. After the end-of-input token has been given,
    /// gives nothing and changes nothing.
    pub fn next_token(&mut self) -> (r: Option<Token>)
        requires
            old(self).wf(),
        ensures
            final(self).wf(),
            old(self)@.done ==> r is None && final(self)@ == old(self)@,
            !old(self)@.done ==> ({
                let sc = scan(old(self)@.text, old(self)@.pos, old(self)@.line);
                r is Some && r->0@ == sc.token && final(self)@ == after_pull(old(self)@, sc)
            }),
    {
        if self.done {
            return None;
        }
        let ghost s = self.chars@;
        let ghost v0 = self@;
        loop
            invariant
                self.wf(),
                !self.done,
                self.chars@ == s,
                v0 == old(self)@,
                !v0.done,
                v0.text == s,
                ({
                    let a = scan(s, v0.pos, v0.line);
                    let b = scan(s, self.cursor as nat, self.current_line as nat);
                    &&& a.token == b.token
                    &&& a.pos == b.pos
                    &&& a.line == b.line
                    &&& v0.errors + a.errors == self.errors@ + b.errors
                    &&& first_error(v0.result, a.errors) == first_error(self.result, b.errors)
                }),
            decreases s.len() - self.cursor,
        {
            let n = self.chars.len();
            if self.cursor >= n {
                assert(self.errors@ + Seq::<LexerError>::empty() =~= self.errors@);
                self.done = true;
                return Some(Token::eof());
            }
            let c = self.chars[self.cursor];
            if c == ' ' || c == '\t' || c == '\r' || c == '\n' {
                if c == '\n' {
                    self.current_line = self.current_line + 1;
                }
                self.cursor = self.cursor + 1;
            } else if c == '/' && self.cursor + 1 < n && self.chars[self.cursor + 1] == '/' {
                let e = find_char(&self.chars, self.cursor + 2, '\n');
                proof {
                    lemma_find_from(s, (self.cursor + 2) as nat, '\n');
                }
                if e < n {
                    self.cursor = e + 1;
                    self.current_line = self.current_line + 1;
                } else {
                    assert(self.errors@ + Seq::<LexerError>::empty() =~= self.errors@);
                    self.cursor = n;
                    self.done = true;
                    return Some(Token::eof());
                }
            } else if !starts_token_exec(c) {
                let ghost b = scan(s, (self.cursor + 1) as nat, self.current_line as nat);
                let err = LexerError::UnexpectedCharacter { line: self.current_line, ch: c };
                proof {
                    lemma_scan_skips_bad_char(
                        s,
                        self.cursor as nat,
                        self.current_line as nat,
                        self.errors@,
                        self.result,
                    );
                }
                self.record(err);
                self.cursor = self.cursor + 1;
            } else {
                return Some(self.read_token());
            }
        }
    }

    /// Pulls every remaining token, with the line counter after each.
    pub fn drain(&mut self) -> (r: (Vec<Token>, Vec<usize>))
        requires
            old(self).wf(),
        ensures
            final(self).wf(),
            final(self)@.done,
            final(self)@.text == old(self)@.text,
            old(self)@.done ==> r.0@.len() == 0 && r.1@.len() == 0 && final(self)@ == old(self)@,
            !old(self)@.done ==> ({
                let all = scan_all(old(self)@.text, old(self)@.pos, old(self)@.line);
                &&& r.0@.len() == all.tokens.len()
                &&& forall|i: int| 0 <= i < r.0@.len() ==> r.0@[i]@ == all.tokens[i]
                &&& r.1@.len() == all.lines.len()
                &&& forall|i: int| 0 <= i < r.1@.len() ==> r.1@[i] == all.lines[i]
                &&& final(self)@.errors == old(self)@.errors + all.errors
                &&& final(self)@.result == first_error(old(self)@.result, all.errors)
            }),
    {
        let mut toks: Vec<Token> = Vec::new();
        let mut lines: Vec<usize> = Vec::new();
        if self.done {
            return (toks, lines);
        }
        let ghost s = self.chars@;
        let ghost v0 = self@;
        let ghost all = scan_all(s, v0.pos, v0.line);
        let ghost mut tv: Seq<TokenView> = Seq::empty();
        let ghost mut lv: Seq<nat> = Seq::empty();
        let ghost mut ev: Seq<LexerError> = Seq::empty();
        assert(v0.errors + Seq::<LexerError>::empty() =~= v0.errors);
        while !self.done
            invariant
                self.wf(),
                self@.text == s,
                v0 == old(self)@,
                !v0.done,
                v0.text == s,
                all == scan_all(s, v0.pos, v0.line),
                toks@.len() == tv.len(),
                forall|i: int| 0 <= i < tv.len() ==> toks@[i]@ == tv[i],
                lines@.len() == lv.len(),
                forall|i: int| 0 <= i < lv.len() ==> lines@[i] == lv[i],
                self@.errors == v0.errors + ev,
                self@.result == first_error(v0.result, ev),
                !self@.done ==> ({
                    let rest = scan_all(s, self@.pos, self@.line);
                    &&& all.tokens == tv + rest.tokens
                    &&& all.lines == lv + rest.lines
                    &&& all.errors == ev + rest.errors
                }),
                self@.done ==> all.tokens == tv && all.lines == lv && all.errors == ev,
            decreases s.len() - self@.pos, if self@.done { 0int } else { 1int },
        {
            let ghost before = self@;
            let ghost rest = scan_all(s, self@.pos, self@.line);
            let t = self.next_token();
            let ghost sc = scan(s, before.pos, before.line);
            proof {
                lemma_scan_progress(s, before.pos, before.line);
                lemma_first_error_append(v0.result, ev, sc.errors);
                assert(v0.errors + ev + sc.errors =~= v0.errors + (ev + sc.errors));
                if sc.token.kind != TokenKind::Eof {
                    let rest2 = scan_all(s, sc.pos, sc.line);
                    assert(tv + rest.tokens =~= tv.push(sc.token) + rest2.tokens);
                    assert(lv + rest.lines =~= lv.push(sc.line) + rest2.lines);
                    assert(ev + rest.errors =~= (ev + sc.errors) + rest2.errors);
                } else {
                    assert(tv + rest.tokens =~= tv.push(sc.token));
                    assert(lv + rest.lines =~= lv.push(sc.line));
                    assert(ev + rest.errors =~= ev + sc.errors);
                }
                tv = tv.push(sc.token);
                lv = lv.push(sc.line);
                ev = ev + sc.errors;
            }
            match t {
                Some(tok) => toks.push(tok),
                None => {},
            }
            lines.push(self.current_line);
        }
        (toks, lines)
    }

    /// Every remaining token, up to and including the end-of-input token.
    pub fn parse_to_end(&mut self) -> (r: Vec<Token>)
        requires
            old(self).wf(),
        ensures
            final(self).wf(),
            final(self)@.done,
            !old(self)@.done ==> ({
                let all = scan_all(old(self)@.text, old(self)@.pos, old(self)@.line);
                &&& r@.len() == all.tokens.len()
                &&& forall|i: int| 0 <= i < r@.len() ==> r@[i]@ == all.tokens[i]
                &&& final(self)@.errors == old(self)@.errors + all.errors
                &&& final(self)@.result == first_error(old(self)@.result, all.errors)
            }),
    {
        let (toks, _lines) = self.drain();
        toks
    }

    fn read_token(&mut self) -> (t: Token)
        requires
            old(self).wf(),
            !old(self).done,
            old(self).cursor < old(self).chars@.len(),
            starts_token(old(self).chars@[old(self).cursor as int]),
            !is_comment_at(old(self).chars@, old(self).cursor as nat),
        ensures
            final(self).wf(),
            ({
                let sc = read_token(old(self)@.text, old(self)@.pos, old(self)@.line);
                t@ == sc.token && final(self)@ == after_pull(old(self)@, sc)
            }),
    {
        let ghost s = self.chars@;
        proof {
            reveal(read_token);
        }
        assert(self.errors@ + Seq::<LexerError>::empty() =~= self.errors@);
        let start = self.cursor;
        let n = self.chars.len();
        let c = self.chars[start];
        if let Some(k) = single_kind_of(c) {
            let lex = self.lexeme(start, start + 1);
            self.cursor = start + 1;
            return Token::plain(k, lex);
        }
        if c == '=' || c == '!' || c == '<' || c == '>' {
            let two = start + 1 < n && self.chars[start + 1] == '=';
            let end = if two { start + 2 } else { start + 1 };
            let lex = self.lexeme(start, end);
            self.cursor = end;
            return Token::plain(operator_kind_of(c, two), lex);
        }
        if c == '/' {
            let lex = self.lexeme(start, start + 1);
            self.cursor = start + 1;
            return Token::plain(TokenKind::Slash, lex);
        }
        if c == '"' {
            let e = find_char(&self.chars, start + 1, '"');
            proof {
                lemma_find_from(s, (start + 1) as nat, '"');
            }
            if e < n {
                let lex = self.lexeme(start, e + 1);
                assert(lex@.subrange(1, lex@.len() - 1) =~= s.subrange(start + 1, e as int));
                self.cursor = e + 1;
                return Token::string_literal(lex);
            } else {
                self.record(LexerError::UnterminatedString(self.current_line));
                self.cursor = n;
                self.done = true;
                return Token::eof();
            }
        }
        if '0' <= c && c <= '9' {
            let d = digits_end_at(&self.chars, start);
            proof {
                lemma_digits_end(s, start as nat);
            }
            let e = if d + 1 < n && self.chars[d] == '.' && '0' <= self.chars[d + 1]
                && self.chars[d + 1] <= '9' {
                proof {
                    lemma_digits_end(s, (d + 1) as nat);
                }
                digits_end_at(&self.chars, d + 1)
            } else {
                d
            };
            let lex = self.lexeme(start, e);
            self.cursor = e;
            return Token::number_literal(lex);
        }
        let e = ident_end_at(&self.chars, start + 1);
        proof {
            lemma_ident_end(s, (start + 1) as nat);
        }
        let lex = self.lexeme(start, e);
        let word = chars_of(lex.as_str());
        self.cursor = e;
        match keyword_kind(word.as_slice()) {
            Some(k) => Token::plain(k, lex),
            None => Token::identifier(lex),
        }
    }
}

} // verus!
