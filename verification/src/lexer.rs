//! The lexer: from source text to tokens.
//!
//! Lines and columns count from 1. A string literal may hold `${...}`
//! holes; the tokens of the expression in a hole are kept with the literal,
//! closed by `End`, and the hole itself is written into the literal's text
//! as one [`hole_mark`] character.

use crate::reader::Reader;
use crate::text::{owned, string_of_chars};
use crate::token::{hole_views, lemma_hole_views, lemma_token_views, token_views, Token, TokenView};
use crate::utils::{Fault, ParseError};
use vstd::prelude::*;

verus! {

/// A place in the source: the index of a character, and its line and column.
pub struct Cursor {
    pub pos: int,
    pub line: int,
    pub column: int,
}

/// A place in the source, as the lexer holds it.
#[derive(Clone, Copy, Debug)]
pub struct Scan {
    pub pos: usize,
    pub line: usize,
    pub column: usize,
}

impl View for Scan {
    type V = Cursor;

    open spec fn view(&self) -> Cursor {
        Cursor { pos: self.pos as int, line: self.line as int, column: self.column as int }
    }
}

impl Cursor {
    /// Where every source begins.
    pub open spec fn origin() -> Cursor {
        Cursor { pos: 0, line: 1, column: 1 }
    }

    /// Line and column are at least 1 and at most one more than the index.
    pub open spec fn placed(self) -> bool {
        0 <= self.pos && 1 <= self.line <= self.pos + 1 && 1 <= self.column <= self.pos + 1
    }

    /// The place behind the character `c`.
    pub open spec fn step(self, c: char) -> Cursor {
        if c == '\n' {
            Cursor { pos: self.pos + 1, line: self.line + 1, column: 1 }
        } else {
            Cursor { pos: self.pos + 1, line: self.line, column: self.column + 1 }
        }
    }

    /// The place `n` characters on, none of which ends a line.
    pub open spec fn along(self, n: int) -> Cursor {
        Cursor { pos: self.pos + n, line: self.line, column: self.column + n }
    }

    /// The fault with the given message at this place.
    pub open spec fn fault(self, message: Seq<char>) -> Fault {
        Fault { message, line: self.line as usize, column: self.column as usize }
    }
}

/// The character that stands for a hole in the text of a string literal.
pub open spec fn hole_mark() -> char {
    '\0'
}

pub open spec fn is_space(c: char) -> bool {
    c == ' ' || c == '\t' || c == '\r' || c == '\n'
}

pub open spec fn is_digit(c: char) -> bool {
    48 <= c as u32 <= 57
}

pub open spec fn is_ident_start(c: char) -> bool {
    97 <= c as u32 <= 122 || 65 <= c as u32 <= 90 || c == '_'
}

pub open spec fn is_ident_part(c: char) -> bool {
    is_ident_start(c) || is_digit(c)
}

/// The value of a digit; 0 for any other character.
pub open spec fn digit_value(c: char) -> int {
    if is_digit(c) {
        c as u32 - 48
    } else {
        0
    }
}

/// Whether `c` belongs to a run of digits (`digits`) or of identifier
/// characters.
pub open spec fn in_run(c: char, digits: bool) -> bool {
    if digits {
        is_digit(c)
    } else {
        is_ident_part(c)
    }
}

/// The index behind the longest run of such characters that begins at `pos`.
pub open spec fn run_end(chars: Seq<char>, pos: int, digits: bool) -> int
    decreases chars.len() - pos,
{
    if 0 <= pos < chars.len() && in_run(chars[pos], digits) {
        run_end(chars, pos + 1, digits)
    } else {
        pos
    }
}

/// The number written by the digits from `from` up to `to`.
pub open spec fn number_value(chars: Seq<char>, from: int, to: int) -> int
    decreases to - from,
{
    if to <= from {
        0
    } else {
        number_value(chars, from, to - 1) * 10 + digit_value(chars[to - 1])
    }
}

/// The token of a word: a keyword, a truth value, or a name.
pub open spec fn word_token(word: Seq<char>, line: usize, column: usize) -> TokenView {
    if word == "class"@ {
        TokenView::Class(line, column)
    } else if word == "if"@ {
        TokenView::If(line, column)
    } else if word == "else"@ {
        TokenView::Else(line, column)
    } else if word == "while"@ {
        TokenView::While(line, column)
    } else if word == "do"@ {
        TokenView::Do(line, column)
    } else if word == "for"@ {
        TokenView::For(line, column)
    } else if word == "return"@ {
        TokenView::Return(line, column)
    } else if word == "import"@ {
        TokenView::Import(line, column)
    } else if word == "this"@ {
        TokenView::This(line, column)
    } else if word == "true"@ {
        TokenView::Bool(true, line, column)
    } else if word == "false"@ {
        TokenView::Bool(false, line, column)
    } else {
        TokenView::Name(word, line, column)
    }
}

/// The operator or punctuation mark that begins with `c`, where `d` is the
/// character behind it, and its length. The longer mark wins.
pub open spec fn punct(c: char, d: Option<char>, line: usize, column: usize) -> Option<
    (TokenView, int),
> {
    if c == '=' {
        if d == Some('=') {
            Some((TokenView::Equal(line, column), 2))
        } else {
            Some((TokenView::Assign(line, column), 1))
        }
    } else if c == '<' {
        if d == Some('=') {
            Some((TokenView::LessOrEq(line, column), 2))
        } else {
            Some((TokenView::LessThan(line, column), 1))
        }
    } else if c == '>' {
        if d == Some('=') {
            Some((TokenView::GreaterOrEq(line, column), 2))
        } else {
            Some((TokenView::GreaterThan(line, column), 1))
        }
    } else if c == '&' {
        if d == Some('&') {
            Some((TokenView::LogAnd(line, column), 2))
        } else {
            Some((TokenView::BitAnd(line, column), 1))
        }
    } else if c == '|' {
        if d == Some('|') {
            Some((TokenView::LogOr(line, column), 2))
        } else {
            Some((TokenView::BitOr(line, column), 1))
        }
    } else if c == '+' {
        if d == Some('+') {
            Some((TokenView::Increment(line, column), 2))
        } else {
            Some((TokenView::Add(line, column), 1))
        }
    } else if c == '-' {
        if d == Some('-') {
            Some((TokenView::Decrement(line, column), 2))
        } else {
            Some((TokenView::Sub(line, column), 1))
        }
    } else if c == '*' {
        Some((TokenView::Mul(line, column), 1))
    } else if c == '/' {
        Some((TokenView::Div(line, column), 1))
    } else if c == '!' {
        Some((TokenView::Not(line, column), 1))
    } else if c == '^' {
        Some((TokenView::BitXor(line, column), 1))
    } else if c == '.' {
        Some((TokenView::Access(line, column), 1))
    } else if c == '(' {
        Some((TokenView::Paren1(line, column), 1))
    } else if c == ')' {
        Some((TokenView::Paren2(line, column), 1))
    } else if c == '[' {
        Some((TokenView::Brack1(line, column), 1))
    } else if c == ']' {
        Some((TokenView::Brack2(line, column), 1))
    } else if c == '{' {
        Some((TokenView::Block1(line, column), 1))
    } else if c == '}' {
        Some((TokenView::Block2(line, column), 1))
    } else if c == ',' {
        Some((TokenView::Comma(line, column), 1))
    } else if c == ';' {
        Some((TokenView::EndSt(line, column), 1))
    } else {
        None
    }
}

/// The character behind `pos`, if there is one.
pub open spec fn following(chars: Seq<char>, pos: int) -> Option<char> {
    if 0 <= pos + 1 < chars.len() {
        Some(chars[pos + 1])
    } else {
        None
    }
}

/// The number that begins at the cursor, and the index behind it: digits,
/// a point and digits are a `Double`, digits alone an `Int`, which must fit
/// into 64 bits.
pub open spec fn number_at(chars: Seq<char>, cur: Cursor) -> Result<(TokenView, int), Fault> {
    let e = run_end(chars, cur.pos, true);
    if 0 <= e < chars.len() && chars[e] == '.' && following(chars, e) is Some && is_digit(
        following(chars, e)->0,
    ) {
        let e2 = run_end(chars, e + 1, true);
        Ok(
            (
                TokenView::Double(chars.subrange(cur.pos, e2), cur.line as usize, cur.column as usize),
                e2,
            ),
        )
    } else if number_value(chars, cur.pos, e) <= i64::MAX {
        Ok(
            (
                TokenView::Int(
                    number_value(chars, cur.pos, e) as i64,
                    cur.line as usize,
                    cur.column as usize,
                ),
                e,
            ),
        )
    } else {
        Err(cur.fault("Integer literal out of range."@))
    }
}

/// What a backslash and `c` stand for in a string literal.
pub open spec fn unescape(c: char) -> Option<char> {
    if c == 'n' {
        Some('\n')
    } else if c == 't' {
        Some('\t')
    } else if c == '"' {
        Some('"')
    } else if c == '\\' {
        Some('\\')
    } else if c == '$' {
        Some('$')
    } else {
        None
    }
}

/// The number of open braces behind a token. Only a hole counts them.
pub open spec fn depth_after(hole: bool, depth: int, t: TokenView) -> int {
    if hole && t is Block1 {
        depth + 1
    } else if hole && t is Block2 {
        depth - 1
    } else {
        depth
    }
}

/// Tokens and the place behind them, or the reason why there are none.
pub type Scanned = Result<(Seq<TokenView>, Cursor), Fault>;

/// The tokens from the cursor on, behind those in `acc`, closed by `End`.
///
/// Outside a hole the tokens reach to the end of the source. Inside a hole
/// (`hole`) they reach to the `}` that closes it, which is the first `}`
/// not opened inside the hole (`depth` counts the open ones); the place
/// returned is behind that brace.
#[verifier::opaque]
pub open spec fn tokens_from(
    chars: Seq<char>,
    cur: Cursor,
    hole: bool,
    depth: int,
    acc: Seq<TokenView>,
) -> Scanned
    decreases chars.len() - cur.pos, 1int,
{
    if !(0 <= cur.pos < chars.len()) {
        if hole {
            Err(cur.fault("Unterminated interpolation."@))
        } else {
            Ok((acc.push(TokenView::End), cur))
        }
    } else {
        let c = chars[cur.pos];
        if is_space(c) {
            tokens_from(chars, cur.step(c), hole, depth, acc)
        } else if is_ident_start(c) {
            let e = run_end(chars, cur.pos + 1, false);
            if cur.pos < e <= chars.len() {
                tokens_from(
                    chars,
                    cur.along(e - cur.pos),
                    hole,
                    depth,
                    acc.push(
                        word_token(
                            chars.subrange(cur.pos, e),
                            cur.line as usize,
                            cur.column as usize,
                        ),
                    ),
                )
            } else {
                Err(cur.fault("The lexer made no progress."@))
            }
        } else if is_digit(c) {
            match number_at(chars, cur) {
                Ok((t, e)) => if cur.pos < e <= chars.len() {
                    tokens_from(chars, cur.along(e - cur.pos), hole, depth, acc.push(t))
                } else {
                    Err(cur.fault("The lexer made no progress."@))
                },
                Err(f) => Err(f),
            }
        } else if c == '"' {
            match string_from(chars, cur.step(c), Seq::empty(), Seq::empty(), cur) {
                Ok((t, next)) => if cur.pos < next.pos <= chars.len() {
                    tokens_from(chars, next, hole, depth, acc.push(t))
                } else {
                    Err(cur.fault("The lexer made no progress."@))
                },
                Err(f) => Err(f),
            }
        } else if hole && c == '}' && depth <= 0 {
            Ok((acc.push(TokenView::End), cur.step(c)))
        } else {
            match punct(c, following(chars, cur.pos), cur.line as usize, cur.column as usize) {
                Some((t, n)) => tokens_from(
                    chars,
                    cur.along(n),
                    hole,
                    depth_after(hole, depth, t),
                    acc.push(t),
                ),
                None => Err(cur.fault("Unexpected character."@)),
            }
        }
    }
}

/// The string literal whose opening quote stands at `open`, from the
/// cursor on, behind the text and the holes read so far, and the place
/// behind its closing quote.
#[verifier::opaque]
pub open spec fn string_from(
    chars: Seq<char>,
    cur: Cursor,
    text: Seq<char>,
    holes: Seq<Seq<TokenView>>,
    open: Cursor,
) -> Result<(TokenView, Cursor), Fault>
    decreases chars.len() - cur.pos, 0int,
{
    if !(0 <= cur.pos < chars.len()) {
        Err(open.fault("Unterminated string."@))
    } else {
        let c = chars[cur.pos];
        if c == '"' {
            Ok((TokenView::Str(text, holes, open.line as usize, open.column as usize), cur.step(c)))
        } else if c == '\\' {
            match following(chars, cur.pos) {
                Some(e) => match unescape(e) {
                    Some(u) => string_from(chars, cur.step(c).step(e), text.push(u), holes, open),
                    None => Err(cur.fault("Unknown escape."@)),
                },
                None => Err(open.fault("Unterminated string."@)),
            }
        } else if c == '$' && following(chars, cur.pos) == Some('{') {
            match tokens_from(chars, cur.along(2), true, 0, Seq::empty()) {
                Ok((toks, next)) => if cur.pos < next.pos <= chars.len() {
                    string_from(chars, next, text.push(hole_mark()), holes.push(toks), open)
                } else {
                    Err(cur.fault("The lexer made no progress."@))
                },
                Err(f) => Err(f),
            }
        } else if c == hole_mark() {
            Err(cur.fault("Unexpected character."@))
        } else {
            string_from(chars, cur.step(c), text.push(c), holes, open)
        }
    }
}

/// The tokens of a whole source. A source of `usize::MAX` characters or
/// more is refused: lines and columns could not be counted.
pub open spec fn lexed(chars: Seq<char>) -> Result<Seq<TokenView>, Fault> {
    if chars.len() >= usize::MAX {
        Err(Fault { message: "Source too large."@, line: 0, column: 0 })
    } else {
        match tokens_from(chars, Cursor::origin(), false, 0, Seq::empty()) {
            Ok((toks, _)) => Ok(toks),
            Err(f) => Err(f),
        }
    }
}

/// The characters of a string, in order.
pub fn chars_of(s: &str) -> (out: Vec<char>)
    ensures
        out@ == s@,
{
    let mut out: Vec<char> = Vec::new();
    for c in it: s.chars()
        invariant
            out@ == it.seq().take(it.index() as int),
            it.seq() == s@,
    {
        out.push(c);
    }
    out
}

impl Scan {
    /// The place behind the character `c`.
    fn step(self, c: char) -> (out: Scan)
        requires
            self@.placed(),
            self.pos < usize::MAX - 1,
        ensures
            out@ == self@.step(c),
            out@.placed(),
    {
        if c == '\n' {
            Scan { pos: self.pos + 1, line: self.line + 1, column: 1 }
        } else {
            Scan { pos: self.pos + 1, line: self.line, column: self.column + 1 }
        }
    }

    /// The place `n` characters on, none of which ends a line.
    fn along(self, n: usize) -> (out: Scan)
        requires
            self@.placed(),
            self.pos + n < usize::MAX,
        ensures
            out@ == self@.along(n as int),
            out@.placed(),
    {
        Scan { pos: self.pos + n, line: self.line, column: self.column + n }
    }

    /// The error with the given message at this place.
    fn fault(self, message: &str) -> (out: ParseError)
        ensures
            out@ == self@.fault(message@),
    {
        ParseError { message: owned(message), line: self.line, column: self.column }
    }
}

fn space(c: char) -> (b: bool)
    ensures
        b == is_space(c),
{
    c == ' ' || c == '\t' || c == '\r' || c == '\n'
}

fn digit(c: char) -> (b: bool)
    ensures
        b == is_digit(c),
{
    48 <= c as u32 && c as u32 <= 57
}

fn ident_start(c: char) -> (b: bool)
    ensures
        b == is_ident_start(c),
{
    (97 <= c as u32 && c as u32 <= 122) || (65 <= c as u32 && c as u32 <= 90) || c == '_'
}

/// The index behind the run of digits or identifier characters at `pos`.
fn run_to(chars: &Vec<char>, pos: usize, digits: bool) -> (e: usize)
    requires
        pos <= chars.len(),
    ensures
        e == run_end(chars@, pos as int, digits),
        pos <= e <= chars.len(),
{
    let mut i = pos;
    while i < chars.len()
        invariant
            pos <= i <= chars.len(),
            run_end(chars@, pos as int, digits) == run_end(chars@, i as int, digits),
        decreases chars.len() - i,
    {
        let c = chars[i];
        let inside = digit(c) || (!digits && ident_start(c));
        if !inside {
            return i;
        }
        i += 1;
    }
    i
}

/// The characters from `from` up to `to`, as a string.
fn slice_string(chars: &Vec<char>, from: usize, to: usize) -> (out: String)
    requires
        from <= to <= chars.len(),
    ensures
        out@ == chars@.subrange(from as int, to as int),
{
    let mut part: Vec<char> = Vec::new();
    let mut i = from;
    while i < to
        invariant
            from <= i <= to <= chars.len(),
            part@ == chars@.subrange(from as int, i as int),
        decreases to - i,
    {
        part.push(chars[i]);
        i += 1;
        assert(part@ =~= chars@.subrange(from as int, i as int));
    }
    string_of_chars(&part)
}

/// The token of the word from `from` up to `to`.
fn word(chars: &Vec<char>, from: usize, to: usize, line: usize, column: usize) -> (out: Token)
    requires
        from <= to <= chars.len(),
    ensures
        out@ == word_token(chars@.subrange(from as int, to as int), line, column),
{
    let text = slice_string(chars, from, to);
    if text == owned("class") {
        Token::Class(line, column)
    } else if text == owned("if") {
        Token::If(line, column)
    } else if text == owned("else") {
        Token::Else(line, column)
    } else if text == owned("while") {
        Token::While(line, column)
    } else if text == owned("do") {
        Token::Do(line, column)
    } else if text == owned("for") {
        Token::For(line, column)
    } else if text == owned("return") {
        Token::Return(line, column)
    } else if text == owned("import") {
        Token::Import(line, column)
    } else if text == owned("this") {
        Token::This(line, column)
    } else if text == owned("true") {
        Token::Bool(true, line, column)
    } else if text == owned("false") {
        Token::Bool(false, line, column)
    } else {
        Token::Name(text, line, column)
    }
}

/// The operator or punctuation mark that begins with `c`, and its length.
fn mark(c: char, d: Option<char>, line: usize, column: usize) -> (out: Option<(Token, usize)>)
    ensures
        match punct(c, d, line, column) {
            Some((t, n)) => out is Some && out->Some_0.0@ == t && out->Some_0.1 == n && 1 <= n <= 2
                && (n == 2 ==> d is Some) && (t is Block1 <==> out->Some_0.0 is Block1) && (t is Block2
                <==> out->Some_0.0 is Block2),
            None => out is None,
        },
{
    let twin = match d {
        Some(x) => x == c,
        None => false,
    };
    let eq = match d {
        Some(x) => x == '=',
        None => false,
    };
    if c == '=' {
        if eq {
            Some((Token::Equal(line, column), 2))
        } else {
            Some((Token::Assign(line, column), 1))
        }
    } else if c == '<' {
        if eq {
            Some((Token::LessOrEq(line, column), 2))
        } else {
            Some((Token::LessThan(line, column), 1))
        }
    } else if c == '>' {
        if eq {
            Some((Token::GreaterOrEq(line, column), 2))
        } else {
            Some((Token::GreaterThan(line, column), 1))
        }
    } else if c == '&' {
        if twin {
            Some((Token::LogAnd(line, column), 2))
        } else {
            Some((Token::BitAnd(line, column), 1))
        }
    } else if c == '|' {
        if twin {
            Some((Token::LogOr(line, column), 2))
        } else {
            Some((Token::BitOr(line, column), 1))
        }
    } else if c == '+' {
        if twin {
            Some((Token::Increment(line, column), 2))
        } else {
            Some((Token::Add(line, column), 1))
        }
    } else if c == '-' {
        if twin {
            Some((Token::Decrement(line, column), 2))
        } else {
            Some((Token::Sub(line, column), 1))
        }
    } else if c == '*' {
        Some((Token::Mul(line, column), 1))
    } else if c == '/' {
        Some((Token::Div(line, column), 1))
    } else if c == '!' {
        Some((Token::Not(line, column), 1))
    } else if c == '^' {
        Some((Token::BitXor(line, column), 1))
    } else if c == '.' {
        Some((Token::Access(line, column), 1))
    } else if c == '(' {
        Some((Token::Paren1(line, column), 1))
    } else if c == ')' {
        Some((Token::Paren2(line, column), 1))
    } else if c == '[' {
        Some((Token::Brack1(line, column), 1))
    } else if c == ']' {
        Some((Token::Brack2(line, column), 1))
    } else if c == '{' {
        Some((Token::Block1(line, column), 1))
    } else if c == '}' {
        Some((Token::Block2(line, column), 1))
    } else if c == ',' {
        Some((Token::Comma(line, column), 1))
    } else if c == ';' {
        Some((Token::EndSt(line, column), 1))
    } else {
        None
    }
}

/// The character behind `pos`, if there is one.
fn next_char(chars: &Vec<char>, pos: usize) -> (out: Option<char>)
    requires
        pos < usize::MAX,
    ensures
        out == following(chars@, pos as int),
{
    if pos + 1 < chars.len() {
        Some(chars[pos + 1])
    } else {
        None
    }
}

/// A run ends at or behind where it begins, and within the source.
proof fn lemma_run_end_bounds(chars: Seq<char>, pos: int, digits: bool)
    requires
        0 <= pos <= chars.len(),
    ensures
        pos <= run_end(chars, pos, digits) <= chars.len(),
    decreases chars.len() - pos,
{
    if pos < chars.len() && in_run(chars[pos], digits) {
        lemma_run_end_bounds(chars, pos + 1, digits);
    }
}

/// A longer run of digits writes a number that is no smaller.
proof fn lemma_number_grows(chars: Seq<char>, from: int, a: int, b: int)
    requires
        from <= a <= b,
    ensures
        0 <= number_value(chars, from, a) <= number_value(chars, from, b),
    decreases b - from,
{
    if from < b {
        if a < b {
            lemma_number_grows(chars, from, a, b - 1);
        } else {
            lemma_number_grows(chars, from, a - 1, b - 1);
        }
    }
}

/// The number that begins at the cursor, and the index behind it.
fn number(chars: &Vec<char>, cur: Scan) -> (out: Result<(Token, usize), ParseError>)
    requires
        cur.pos < chars.len() < usize::MAX,
        is_digit(chars@[cur.pos as int]),
    ensures
        match number_at(chars@, cur@) {
            Ok((t, e)) => out is Ok && out->Ok_0.0@ == t && out->Ok_0.1 == e && cur.pos < e
                <= chars.len() && !(t is Block1) && !(t is Block2),
            Err(f) => out is Err && out->Err_0@ == f,
        },
{
    let e = run_to(chars, cur.pos, true);
    proof {
        lemma_run_end_bounds(chars@, cur.pos + 1, true);
    }
    let fraction = e < chars.len() && chars[e] == '.' && match next_char(chars, e) {
        Some(d) => digit(d),
        None => false,
    };
    if fraction {
        let e2 = run_to(chars, e + 1, true);
        Ok((Token::Double(slice_string(chars, cur.pos, e2), cur.line, cur.column), e2))
    } else {
        let mut v: i64 = 0;
        let mut i = cur.pos;
        while i < e
            invariant
                cur.pos <= i <= e <= chars.len(),
                e == run_end(chars@, cur.pos as int, true),
                !(0 <= e < chars.len() && chars@[e as int] == '.' && following(chars@, e as int) is Some
                    && is_digit(following(chars@, e as int)->0)),
                v == number_value(chars@, cur.pos as int, i as int),
                0 <= v,
            decreases e - i,
        {
            let c = chars[i];
            let d: i64 = if digit(c) {
                (c as u32 - 48) as i64
            } else {
                0
            };
            assert(d == digit_value(c));
            assert(number_value(chars@, cur.pos as int, i + 1) == v * 10 + d);
            if v > (i64::MAX - d) / 10 {
                proof {
                    assert(v * 10 + d > i64::MAX);
                    lemma_number_grows(chars@, cur.pos as int, i + 1, e as int);
                }
                return Err(cur.fault("Integer literal out of range."));
            }
            v = v * 10 + d;
            i += 1;
        }
        Ok((Token::Int(v, cur.line, cur.column), e))
    }
}

/// What a backslash and `c` stand for in a string literal.
fn escaped(c: char) -> (out: Option<char>)
    ensures
        out == unescape(c),
{
    if c == 'n' {
        Some('\n')
    } else if c == 't' {
        Some('\t')
    } else if c == '"' {
        Some('"')
    } else if c == '\\' {
        Some('\\')
    } else if c == '$' {
        Some('$')
    } else {
        None
    }
}

/// The values of a token sequence with one more token at its end.
proof fn lemma_token_views_push(ts: Seq<Token>, t: Token)
    ensures
        token_views(ts.push(t)) == token_views(ts).push(t@),
{
    lemma_token_views(ts);
    lemma_token_views(ts.push(t));
    assert(token_views(ts.push(t)) =~= token_views(ts).push(t@));
}

/// The values of a hole sequence with one more hole at its end.
proof fn lemma_hole_views_push(hs: Seq<Vec<Token>>, h: Vec<Token>)
    ensures
        hole_views(hs.push(h)) == hole_views(hs).push(token_views(h@)),
{
    lemma_hole_views(hs);
    lemma_hole_views(hs.push(h));
    assert(hole_views(hs.push(h)) =~= hole_views(hs).push(token_views(h@)));
}

/// The string literal whose opening quote stands at `open`, read from
/// `start`, which is the place behind that quote.
fn scan_string(chars: &Vec<char>, start: Scan, open: Scan) -> (out: Result<(Token, Scan), ParseError>)
    requires
        start@.placed(),
        start.pos <= chars.len() < usize::MAX,
    ensures
        match string_from(chars@, start@, Seq::empty(), Seq::empty(), open@) {
            Ok((t, next)) => {
                &&& out is Ok
                &&& out->Ok_0.0@ == t
                &&& out->Ok_0.0 is Str
                &&& out->Ok_0.1@ == next
                &&& next.placed()
                &&& start.pos < next.pos <= chars.len()
            },
            Err(f) => out is Err && out->Err_0@ == f,
        },
    decreases chars.len() - start.pos, 0int,
{
    let mut cur = start;
    let mut text: Vec<char> = Vec::new();
    let mut holes: Vec<Vec<Token>> = Vec::new();
    proof {
        assert(hole_views(holes@) =~= Seq::<Seq<TokenView>>::empty());
    }
    loop
        invariant
            cur@.placed(),
            start.pos <= cur.pos <= chars.len() < usize::MAX,
            string_from(chars@, start@, Seq::empty(), Seq::empty(), open@) == string_from(
                chars@,
                cur@,
                text@,
                hole_views(holes@),
                open@,
            ),
        decreases chars.len() - cur.pos,
    {
        proof {
            reveal(string_from);
            reveal(tokens_from);
        }
        if cur.pos >= chars.len() {
            return Err(open.fault("Unterminated string."));
        }
        let c = chars[cur.pos];
        if c == '"' {
            let t = Token::Str(string_of_chars(&text), holes, open.line, open.column);
            return Ok((t, cur.step(c)));
        } else if c == '\\' {
            match next_char(chars, cur.pos) {
                Some(e) => match escaped(e) {
                    Some(u) => {
                        text.push(u);
                        cur = cur.step(c).step(e);
                    },
                    None => {
                        return Err(cur.fault("Unknown escape."));
                    },
                },
                None => {
                    return Err(open.fault("Unterminated string."));
                },
            }
        } else if c == '$' && next_char(chars, cur.pos) == Some('{') {
            match scan_tokens(chars, cur.along(2), true) {
                Ok((toks, next)) => {
                    proof {
                        lemma_hole_views_push(holes@, toks);
                    }
                    text.push('\0');
                    holes.push(toks);
                    cur = next;
                },
                Err(e) => {
                    return Err(e);
                },
            }
        } else if c == '\0' {
            return Err(cur.fault("Unexpected character."));
        } else {
            text.push(c);
            cur = cur.step(c);
        }
    }
}

/// The tokens from `start` on, closed by `End`: to the end of the source,
/// or inside a hole to the brace that closes it.
fn scan_tokens(chars: &Vec<char>, start: Scan, hole: bool) -> (out: Result<
    (Vec<Token>, Scan),
    ParseError,
>)
    requires
        start@.placed(),
        start.pos <= chars.len() < usize::MAX,
    ensures
        match tokens_from(chars@, start@, hole, 0, Seq::empty()) {
            Ok((toks, next)) => {
                &&& out is Ok
                &&& token_views(out->Ok_0.0@) == toks
                &&& out->Ok_0.1@ == next
                &&& next.placed()
                &&& start.pos <= next.pos <= chars.len()
                &&& hole ==> start.pos < next.pos
            },
            Err(f) => out is Err && out->Err_0@ == f,
        },
    decreases chars.len() - start.pos, 1int,
{
    let mut cur = start;
    let mut depth: usize = 0;
    let mut tokens: Vec<Token> = Vec::new();
    proof {
        assert(token_views(tokens@) =~= Seq::<TokenView>::empty());
    }
    loop
        invariant
            cur@.placed(),
            start.pos <= cur.pos <= chars.len() < usize::MAX,
            depth <= cur.pos - start.pos,
            tokens_from(chars@, start@, hole, 0, Seq::empty()) == tokens_from(
                chars@,
                cur@,
                hole,
                depth as int,
                token_views(tokens@),
            ),
        decreases chars.len() - cur.pos,
    {
        proof {
            reveal(tokens_from);
            reveal(string_from);
        }
        if cur.pos >= chars.len() {
            if hole {
                return Err(cur.fault("Unterminated interpolation."));
            }
            proof {
                lemma_token_views_push(tokens@, Token::End);
            }
            tokens.push(Token::End);
            return Ok((tokens, cur));
        }
        let c = chars[cur.pos];
        if space(c) {
            cur = cur.step(c);
        } else if ident_start(c) {
            let e = run_to(chars, cur.pos + 1, false);
            let t = word(chars, cur.pos, e, cur.line, cur.column);
            proof {
                lemma_token_views_push(tokens@, t);
            }
            tokens.push(t);
            cur = cur.along(e - cur.pos);
        } else if digit(c) {
            match number(chars, cur) {
                Ok((t, e)) => {
                    proof {
                        lemma_token_views_push(tokens@, t);
                    }
                    tokens.push(t);
                    cur = cur.along(e - cur.pos);
                },
                Err(e) => {
                    return Err(e);
                },
            }
        } else if c == '"' {
            match scan_string(chars, cur.step(c), cur) {
                Ok((t, next)) => {
                    proof {
                        lemma_token_views_push(tokens@, t);
                    }
                    tokens.push(t);
                    cur = next;
                },
                Err(e) => {
                    return Err(e);
                },
            }
        } else if hole && c == '}' && depth == 0 {
            proof {
                lemma_token_views_push(tokens@, Token::End);
            }
            tokens.push(Token::End);
            return Ok((tokens, cur.step(c)));
        } else {
            match mark(c, next_char(chars, cur.pos), cur.line, cur.column) {
                Some((t, n)) => {
                    if hole {
                        match t {
                            Token::Block1(_, _) => {
                                depth = depth + 1;
                            },
                            Token::Block2(_, _) => {
                                depth = depth - 1;
                            },
                            _ => {},
                        }
                    }
                    proof {
                        lemma_token_views_push(tokens@, t);
                    }
                    tokens.push(t);
                    cur = cur.along(n);
                },
                None => {
                    return Err(cur.fault("Unexpected character."));
                },
            }
        }
    }
}

/// Lexes a source text: the reader stands on the first of its tokens, and
/// `End` is the last of them.
pub fn lex(source: &str) -> (out: Result<Reader, ParseError>)
    ensures
        match lexed(source@) {
            Ok(toks) => out is Ok && out->Ok_0@.tokens == toks && out->Ok_0@.pos == 0,
            Err(f) => out is Err && out->Err_0@ == f,
        },
{
    let chars = chars_of(source);
    if chars.len() == usize::MAX {
        return Err(ParseError { message: owned("Source too large."), line: 0, column: 0 });
    }
    let origin = Scan { pos: 0, line: 1, column: 1 };
    match scan_tokens(&chars, origin, false) {
        Ok((tokens, _)) => Ok(Reader::new(tokens)),
        Err(e) => Err(e),
    }
}

} // verus!
