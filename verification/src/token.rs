//! The lexical vocabulary of the language.

use crate::text::{decimal, joined, owned, signed_decimal};
use vstd::prelude::*;

verus! {

/// One lexical unit together with the `(line, column)` where it starts.
///
/// `End` is the sentinel that closes a token stream and carries no position.
/// A `Double` keeps the literal as written (digits, a point, digits); a `Str`
/// keeps its text and, for every `${...}` hole, the tokens of the embedded
/// expression.
#[derive(Debug)]
pub enum Token {
    Int(i64, usize, usize),
    Double(String, usize, usize),
    Bool(bool, usize, usize),
    Str(String, Vec<Vec<Token>>, usize, usize),
    Name(String, usize, usize),
    Class(usize, usize),
    If(usize, usize),
    Else(usize, usize),
    While(usize, usize),
    Do(usize, usize),
    For(usize, usize),
    Return(usize, usize),
    Import(usize, usize),
    This(usize, usize),
    Add(usize, usize),
    Sub(usize, usize),
    Mul(usize, usize),
    Div(usize, usize),
    Equal(usize, usize),
    LessThan(usize, usize),
    GreaterThan(usize, usize),
    LessOrEq(usize, usize),
    GreaterOrEq(usize, usize),
    LogAnd(usize, usize),
    LogOr(usize, usize),
    Not(usize, usize),
    BitAnd(usize, usize),
    BitOr(usize, usize),
    BitXor(usize, usize),
    Increment(usize, usize),
    Decrement(usize, usize),
    Assign(usize, usize),
    Access(usize, usize),
    Paren1(usize, usize),
    Paren2(usize, usize),
    Brack1(usize, usize),
    Brack2(usize, usize),
    Block1(usize, usize),
    Block2(usize, usize),
    Comma(usize, usize),
    EndSt(usize, usize),
    End,
}

/// The mathematical value of a [`Token`]: text as a sequence of characters,
/// the holes of a string literal as sequences of token values.
pub enum TokenView {
    Int(i64, usize, usize),
    Double(Seq<char>, usize, usize),
    Bool(bool, usize, usize),
    Str(Seq<char>, Seq<Seq<TokenView>>, usize, usize),
    Name(Seq<char>, usize, usize),
    Class(usize, usize),
    If(usize, usize),
    Else(usize, usize),
    While(usize, usize),
    Do(usize, usize),
    For(usize, usize),
    Return(usize, usize),
    Import(usize, usize),
    This(usize, usize),
    Add(usize, usize),
    Sub(usize, usize),
    Mul(usize, usize),
    Div(usize, usize),
    Equal(usize, usize),
    LessThan(usize, usize),
    GreaterThan(usize, usize),
    LessOrEq(usize, usize),
    GreaterOrEq(usize, usize),
    LogAnd(usize, usize),
    LogOr(usize, usize),
    Not(usize, usize),
    BitAnd(usize, usize),
    BitOr(usize, usize),
    BitXor(usize, usize),
    Increment(usize, usize),
    Decrement(usize, usize),
    Assign(usize, usize),
    Access(usize, usize),
    Paren1(usize, usize),
    Paren2(usize, usize),
    Brack1(usize, usize),
    Brack2(usize, usize),
    Block1(usize, usize),
    Block2(usize, usize),
    Comma(usize, usize),
    EndSt(usize, usize),
    End,
}

/// The values of a token sequence, in order.
pub open spec fn token_views(ts: Seq<Token>) -> Seq<TokenView>
    decreases ts, 1int,
{
    Seq::new(ts.len(), |i: int| if 0 <= i < ts.len() { ts[i].view() } else { TokenView::End })
}

/// `token_views` keeps the length and maps the tokens one by one.
pub proof fn lemma_token_views(ts: Seq<Token>)
    ensures
        token_views(ts).len() == ts.len(),
        forall|i: int| 0 <= i < ts.len() ==> (#[trigger] token_views(ts)[i]) == ts[i]@,
{
}

/// The values of every hole of a string literal.
pub open spec fn hole_views(hs: Seq<Vec<Token>>) -> Seq<Seq<TokenView>>
    decreases hs, 2int,
{
    Seq::new(hs.len(), |i: int| if 0 <= i < hs.len() { token_views(hs[i]@) } else { Seq::empty() })
}

/// `hole_views` keeps the length and maps the holes one by one.
pub proof fn lemma_hole_views(hs: Seq<Vec<Token>>)
    ensures
        hole_views(hs).len() == hs.len(),
        forall|i: int| 0 <= i < hs.len() ==> (#[trigger] hole_views(hs)[i]) == token_views(hs[i]@),
{
}

impl View for Token {
    type V = TokenView;

    open spec fn view(&self) -> TokenView
        decreases self, 0int,
    {
        match self {
            Token::Int(v, l, c) => TokenView::Int(*v, *l, *c),
            Token::Double(s, l, c) => TokenView::Double(s@, *l, *c),
            Token::Bool(b, l, c) => TokenView::Bool(*b, *l, *c),
            Token::Str(s, holes, l, c) => TokenView::Str(s@, hole_views(holes@), *l, *c),
            Token::Name(s, l, c) => TokenView::Name(s@, *l, *c),
            Token::Class(l, c) => TokenView::Class(*l, *c),
            Token::If(l, c) => TokenView::If(*l, *c),
            Token::Else(l, c) => TokenView::Else(*l, *c),
            Token::While(l, c) => TokenView::While(*l, *c),
            Token::Do(l, c) => TokenView::Do(*l, *c),
            Token::For(l, c) => TokenView::For(*l, *c),
            Token::Return(l, c) => TokenView::Return(*l, *c),
            Token::Import(l, c) => TokenView::Import(*l, *c),
            Token::This(l, c) => TokenView::This(*l, *c),
            Token::Add(l, c) => TokenView::Add(*l, *c),
            Token::Sub(l, c) => TokenView::Sub(*l, *c),
            Token::Mul(l, c) => TokenView::Mul(*l, *c),
            Token::Div(l, c) => TokenView::Div(*l, *c),
            Token::Equal(l, c) => TokenView::Equal(*l, *c),
            Token::LessThan(l, c) => TokenView::LessThan(*l, *c),
            Token::GreaterThan(l, c) => TokenView::GreaterThan(*l, *c),
            Token::LessOrEq(l, c) => TokenView::LessOrEq(*l, *c),
            Token::GreaterOrEq(l, c) => TokenView::GreaterOrEq(*l, *c),
            Token::LogAnd(l, c) => TokenView::LogAnd(*l, *c),
            Token::LogOr(l, c) => TokenView::LogOr(*l, *c),
            Token::Not(l, c) => TokenView::Not(*l, *c),
            Token::BitAnd(l, c) => TokenView::BitAnd(*l, *c),
            Token::BitOr(l, c) => TokenView::BitOr(*l, *c),
            Token::BitXor(l, c) => TokenView::BitXor(*l, *c),
            Token::Increment(l, c) => TokenView::Increment(*l, *c),
            Token::Decrement(l, c) => TokenView::Decrement(*l, *c),
            Token::Assign(l, c) => TokenView::Assign(*l, *c),
            Token::Access(l, c) => TokenView::Access(*l, *c),
            Token::Paren1(l, c) => TokenView::Paren1(*l, *c),
            Token::Paren2(l, c) => TokenView::Paren2(*l, *c),
            Token::Brack1(l, c) => TokenView::Brack1(*l, *c),
            Token::Brack2(l, c) => TokenView::Brack2(*l, *c),
            Token::Block1(l, c) => TokenView::Block1(*l, *c),
            Token::Block2(l, c) => TokenView::Block2(*l, *c),
            Token::Comma(l, c) => TokenView::Comma(*l, *c),
            Token::EndSt(l, c) => TokenView::EndSt(*l, *c),
            Token::End => TokenView::End,
        }
    }
}

impl TokenView {
    /// The `(line, column)` stamped on the token; `(0, 0)` for `End`.
    pub open spec fn position(self) -> (usize, usize) {
        match self {
            TokenView::Int(_, l, c) => (l, c),
            TokenView::Double(_, l, c) => (l, c),
            TokenView::Bool(_, l, c) => (l, c),
            TokenView::Str(_, _, l, c) => (l, c),
            TokenView::Name(_, l, c) => (l, c),
            TokenView::Class(l, c) => (l, c),
            TokenView::If(l, c) => (l, c),
            TokenView::Else(l, c) => (l, c),
            TokenView::While(l, c) => (l, c),
            TokenView::Do(l, c) => (l, c),
            TokenView::For(l, c) => (l, c),
            TokenView::Return(l, c) => (l, c),
            TokenView::Import(l, c) => (l, c),
            TokenView::This(l, c) => (l, c),
            TokenView::Add(l, c) => (l, c),
            TokenView::Sub(l, c) => (l, c),
            TokenView::Mul(l, c) => (l, c),
            TokenView::Div(l, c) => (l, c),
            TokenView::Equal(l, c) => (l, c),
            TokenView::LessThan(l, c) => (l, c),
            TokenView::GreaterThan(l, c) => (l, c),
            TokenView::LessOrEq(l, c) => (l, c),
            TokenView::GreaterOrEq(l, c) => (l, c),
            TokenView::LogAnd(l, c) => (l, c),
            TokenView::LogOr(l, c) => (l, c),
            TokenView::Not(l, c) => (l, c),
            TokenView::BitAnd(l, c) => (l, c),
            TokenView::BitOr(l, c) => (l, c),
            TokenView::BitXor(l, c) => (l, c),
            TokenView::Increment(l, c) => (l, c),
            TokenView::Decrement(l, c) => (l, c),
            TokenView::Assign(l, c) => (l, c),
            TokenView::Access(l, c) => (l, c),
            TokenView::Paren1(l, c) => (l, c),
            TokenView::Paren2(l, c) => (l, c),
            TokenView::Brack1(l, c) => (l, c),
            TokenView::Brack2(l, c) => (l, c),
            TokenView::Block1(l, c) => (l, c),
            TokenView::Block2(l, c) => (l, c),
            TokenView::Comma(l, c) => (l, c),
            TokenView::EndSt(l, c) => (l, c),
            TokenView::End => (0, 0),
        }
    }

    /// How the token prints: a keyword or operator as it is spelled, a name
    /// as itself, a number in decimal, a string literal between double
    /// quotes, and the sentinel as `EOF`.
    #[verifier::opaque]
    pub open spec fn text(self) -> Seq<char> {
        match self {
            TokenView::Int(v, _, _) => decimal(v as int),
            TokenView::Double(s, _, _) => s,
            TokenView::Bool(b, _, _) => if b { "true"@ } else { "false"@ },
            TokenView::Str(s, _, _, _) => "\""@ + s + "\""@,
            TokenView::Name(s, _, _) => s,
            TokenView::Class(_, _) => "class"@,
            TokenView::If(_, _) => "if"@,
            TokenView::Else(_, _) => "else"@,
            TokenView::While(_, _) => "while"@,
            TokenView::Do(_, _) => "do"@,
            TokenView::For(_, _) => "for"@,
            TokenView::Return(_, _) => "return"@,
            TokenView::Import(_, _) => "import"@,
            TokenView::This(_, _) => "this"@,
            TokenView::Add(_, _) => "+"@,
            TokenView::Sub(_, _) => "-"@,
            TokenView::Mul(_, _) => "*"@,
            TokenView::Div(_, _) => "/"@,
            TokenView::Equal(_, _) => "=="@,
            TokenView::LessThan(_, _) => "<"@,
            TokenView::GreaterThan(_, _) => ">"@,
            TokenView::LessOrEq(_, _) => "<="@,
            TokenView::GreaterOrEq(_, _) => ">="@,
            TokenView::LogAnd(_, _) => "&&"@,
            TokenView::LogOr(_, _) => "||"@,
            TokenView::Not(_, _) => "!"@,
            TokenView::BitAnd(_, _) => "&"@,
            TokenView::BitOr(_, _) => "|"@,
            TokenView::BitXor(_, _) => "^"@,
            TokenView::Increment(_, _) => "++"@,
            TokenView::Decrement(_, _) => "--"@,
            TokenView::Assign(_, _) => "="@,
            TokenView::Access(_, _) => "."@,
            TokenView::Paren1(_, _) => "("@,
            TokenView::Paren2(_, _) => ")"@,
            TokenView::Brack1(_, _) => "["@,
            TokenView::Brack2(_, _) => "]"@,
            TokenView::Block1(_, _) => "{"@,
            TokenView::Block2(_, _) => "}"@,
            TokenView::Comma(_, _) => ","@,
            TokenView::EndSt(_, _) => ";"@,
            TokenView::End => "EOF"@,
        }
    }
}

/// A copy of a token sequence.
pub fn clone_tokens(ts: &Vec<Token>) -> (out: Vec<Token>)
    ensures
        token_views(out@) == token_views(ts@),
    decreases ts, 1int,
{
    let mut out: Vec<Token> = Vec::new();
    let mut i: usize = 0;
    while i < ts.len()
        invariant
            i <= ts.len(),
            out.len() == i,
            forall|k: int| 0 <= k < i ==> out[k]@ == ts[k]@,
        decreases ts.len() - i,
    {
        out.push(ts[i].clone());
        i += 1;
    }
    assert(token_views(out@) =~= token_views(ts@));
    out
}

fn clone_holes(hs: &Vec<Vec<Token>>) -> (out: Vec<Vec<Token>>)
    ensures
        hole_views(out@) == hole_views(hs@),
    decreases hs, 2int,
{
    let mut out: Vec<Vec<Token>> = Vec::new();
    let mut i: usize = 0;
    while i < hs.len()
        invariant
            i <= hs.len(),
            out.len() == i,
            forall|k: int| 0 <= k < i ==> token_views(out[k]@) == token_views(hs[k]@),
        decreases hs.len() - i,
    {
        out.push(clone_tokens(&hs[i]));
        i += 1;
    }
    assert(hole_views(out@) =~= hole_views(hs@));
    out
}

impl Clone for Token {
    fn clone(&self) -> (out: Token)
        ensures
            out@ == self@,
        decreases self, 0int,
    {
        match self {
            Token::Int(v, l, c) => Token::Int(*v, *l, *c),
            Token::Double(s, l, c) => Token::Double(s.clone(), *l, *c),
            Token::Bool(b, l, c) => Token::Bool(*b, *l, *c),
            Token::Str(s, holes, l, c) => Token::Str(s.clone(), clone_holes(holes), *l, *c),
            Token::Name(s, l, c) => Token::Name(s.clone(), *l, *c),
            Token::Class(l, c) => Token::Class(*l, *c),
            Token::If(l, c) => Token::If(*l, *c),
            Token::Else(l, c) => Token::Else(*l, *c),
            Token::While(l, c) => Token::While(*l, *c),
            Token::Do(l, c) => Token::Do(*l, *c),
            Token::For(l, c) => Token::For(*l, *c),
            Token::Return(l, c) => Token::Return(*l, *c),
            Token::Import(l, c) => Token::Import(*l, *c),
            Token::This(l, c) => Token::This(*l, *c),
            Token::Add(l, c) => Token::Add(*l, *c),
            Token::Sub(l, c) => Token::Sub(*l, *c),
            Token::Mul(l, c) => Token::Mul(*l, *c),
            Token::Div(l, c) => Token::Div(*l, *c),
            Token::Equal(l, c) => Token::Equal(*l, *c),
            Token::LessThan(l, c) => Token::LessThan(*l, *c),
            Token::GreaterThan(l, c) => Token::GreaterThan(*l, *c),
            Token::LessOrEq(l, c) => Token::LessOrEq(*l, *c),
            Token::GreaterOrEq(l, c) => Token::GreaterOrEq(*l, *c),
            Token::LogAnd(l, c) => Token::LogAnd(*l, *c),
            Token::LogOr(l, c) => Token::LogOr(*l, *c),
            Token::Not(l, c) => Token::Not(*l, *c),
            Token::BitAnd(l, c) => Token::BitAnd(*l, *c),
            Token::BitOr(l, c) => Token::BitOr(*l, *c),
            Token::BitXor(l, c) => Token::BitXor(*l, *c),
            Token::Increment(l, c) => Token::Increment(*l, *c),
            Token::Decrement(l, c) => Token::Decrement(*l, *c),
            Token::Assign(l, c) => Token::Assign(*l, *c),
            Token::Access(l, c) => Token::Access(*l, *c),
            Token::Paren1(l, c) => Token::Paren1(*l, *c),
            Token::Paren2(l, c) => Token::Paren2(*l, *c),
            Token::Brack1(l, c) => Token::Brack1(*l, *c),
            Token::Brack2(l, c) => Token::Brack2(*l, *c),
            Token::Block1(l, c) => Token::Block1(*l, *c),
            Token::Block2(l, c) => Token::Block2(*l, *c),
            Token::Comma(l, c) => Token::Comma(*l, *c),
            Token::EndSt(l, c) => Token::EndSt(*l, *c),
            Token::End => Token::End,
        }
    }
}

impl Token {
    /// The `(line, column)` where the token starts; `(0, 0)` for `End`.
    pub fn find_token_position(&self) -> (at: (usize, usize))
        ensures
            at == self@.position(),
    {
        match self {
            Token::Int(_, l, c) => (*l, *c),
            Token::Double(_, l, c) => (*l, *c),
            Token::Bool(_, l, c) => (*l, *c),
            Token::Str(_, _, l, c) => (*l, *c),
            Token::Name(_, l, c) => (*l, *c),
            Token::Class(l, c) => (*l, *c),
            Token::If(l, c) => (*l, *c),
            Token::Else(l, c) => (*l, *c),
            Token::While(l, c) => (*l, *c),
            Token::Do(l, c) => (*l, *c),
            Token::For(l, c) => (*l, *c),
            Token::Return(l, c) => (*l, *c),
            Token::Import(l, c) => (*l, *c),
            Token::This(l, c) => (*l, *c),
            Token::Add(l, c) => (*l, *c),
            Token::Sub(l, c) => (*l, *c),
            Token::Mul(l, c) => (*l, *c),
            Token::Div(l, c) => (*l, *c),
            Token::Equal(l, c) => (*l, *c),
            Token::LessThan(l, c) => (*l, *c),
            Token::GreaterThan(l, c) => (*l, *c),
            Token::LessOrEq(l, c) => (*l, *c),
            Token::GreaterOrEq(l, c) => (*l, *c),
            Token::LogAnd(l, c) => (*l, *c),
            Token::LogOr(l, c) => (*l, *c),
            Token::Not(l, c) => (*l, *c),
            Token::BitAnd(l, c) => (*l, *c),
            Token::BitOr(l, c) => (*l, *c),
            Token::BitXor(l, c) => (*l, *c),
            Token::Increment(l, c) => (*l, *c),
            Token::Decrement(l, c) => (*l, *c),
            Token::Assign(l, c) => (*l, *c),
            Token::Access(l, c) => (*l, *c),
            Token::Paren1(l, c) => (*l, *c),
            Token::Paren2(l, c) => (*l, *c),
            Token::Brack1(l, c) => (*l, *c),
            Token::Brack2(l, c) => (*l, *c),
            Token::Block1(l, c) => (*l, *c),
            Token::Block2(l, c) => (*l, *c),
            Token::Comma(l, c) => (*l, *c),
            Token::EndSt(l, c) => (*l, *c),
            Token::End => (0, 0),
        }
    }

    /// The printed form of the token.
    pub fn text(&self) -> (out: String)
        ensures
            out@ == self@.text(),
    {
        proof {
            reveal(TokenView::text);
        }
        match self {
            Token::Int(v, _, _) => signed_decimal(*v),
            Token::Double(s, _, _) => s.clone(),
            Token::Bool(b, _, _) => if *b { owned("true") } else { owned("false") },
            Token::Str(s, _, _, _) => joined(joined(owned("\""), s.as_str()), "\""),
            Token::Name(s, _, _) => s.clone(),
            Token::Class(_, _) => owned("class"),
            Token::If(_, _) => owned("if"),
            Token::Else(_, _) => owned("else"),
            Token::While(_, _) => owned("while"),
            Token::Do(_, _) => owned("do"),
            Token::For(_, _) => owned("for"),
            Token::Return(_, _) => owned("return"),
            Token::Import(_, _) => owned("import"),
            Token::This(_, _) => owned("this"),
            Token::Add(_, _) => owned("+"),
            Token::Sub(_, _) => owned("-"),
            Token::Mul(_, _) => owned("*"),
            Token::Div(_, _) => owned("/"),
            Token::Equal(_, _) => owned("=="),
            Token::LessThan(_, _) => owned("<"),
            Token::GreaterThan(_, _) => owned(">"),
            Token::LessOrEq(_, _) => owned("<="),
            Token::GreaterOrEq(_, _) => owned(">="),
            Token::LogAnd(_, _) => owned("&&"),
            Token::LogOr(_, _) => owned("||"),
            Token::Not(_, _) => owned("!"),
            Token::BitAnd(_, _) => owned("&"),
            Token::BitOr(_, _) => owned("|"),
            Token::BitXor(_, _) => owned("^"),
            Token::Increment(_, _) => owned("++"),
            Token::Decrement(_, _) => owned("--"),
            Token::Assign(_, _) => owned("="),
            Token::Access(_, _) => owned("."),
            Token::Paren1(_, _) => owned("("),
            Token::Paren2(_, _) => owned(")"),
            Token::Brack1(_, _) => owned("["),
            Token::Brack2(_, _) => owned("]"),
            Token::Block1(_, _) => owned("{"),
            Token::Block2(_, _) => owned("}"),
            Token::Comma(_, _) => owned(","),
            Token::EndSt(_, _) => owned(";"),
            Token::End => owned("EOF"),
        }
    }
}

} // verus!
