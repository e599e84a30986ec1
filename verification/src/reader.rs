//! A cursor over a token sequence.

use crate::text::{joined, owned};
use crate::token::{lemma_token_views, token_views, Token, TokenView};
use crate::utils::{fault_at, ParseError};
use vstd::prelude::*;

verus! {

/// A token sequence and the index of the current token.
///
/// The cursor may stand behind the last token; there is then no current
/// token.
pub struct Reader {
    pos: usize,
    tokens: Vec<Token>,
}

/// The mathematical value of a [`Reader`].
pub struct ReaderView {
    pub pos: int,
    pub tokens: Seq<TokenView>,
}

/// The token at `pos`, if there is one.
pub open spec fn token_at(toks: Seq<TokenView>, pos: int) -> Option<TokenView> {
    if 0 <= pos < toks.len() {
        Some(toks[pos])
    } else {
        None
    }
}

/// The message for a token that prints as `got` where `want` was expected.
pub open spec fn expected_message(want: Seq<char>, got: Seq<char>) -> Seq<char> {
    "Expected: '"@ + want + "'. Got: '"@ + got + "'."@
}

/// The message for a missing token where `want` was expected.
pub open spec fn out_of_bounds_message(want: Seq<char>) -> Seq<char> {
    "Index out of bounds while expecting symbol: '"@ + want + "'"@
}

/// Whether the token at `pos` prints as `want`, and the message if not.
pub open spec fn expect_outcome(toks: Seq<TokenView>, pos: int, want: Seq<char>) -> Result<
    (),
    Seq<char>,
> {
    match token_at(toks, pos) {
        Some(t) => if t.text() == want {
            Ok(())
        } else {
            Err(expected_message(want, t.text()))
        },
        None => Err(out_of_bounds_message(want)),
    }
}

impl View for Reader {
    type V = ReaderView;

    closed spec fn view(&self) -> ReaderView {
        ReaderView { pos: self.pos as int, tokens: token_views(self.tokens@) }
    }
}

impl Reader {
    /// A cursor on the first of the given tokens.
    pub fn new(tokens: Vec<Token>) -> (out: Reader)
        ensures
            out@.pos == 0,
            out@.tokens == token_views(tokens@),
    {
        Reader { pos: 0, tokens }
    }

    /// Succeeds where the current token prints as `sym`; otherwise the error
    /// says what was expected and what was found.
    pub fn expect(&self, sym: &str) -> (out: Result<(), String>)
        ensures
            match expect_outcome(self@.tokens, self@.pos, sym@) {
                Ok(_) => out is Ok,
                Err(m) => out is Err && out->Err_0@ == m,
            },
    {
        proof {
            lemma_token_views(self.tokens@);
            assert(self.tokens@.len() == self.tokens.len());
        }
        if self.pos < self.tokens.len() {
            let got = self.tokens[self.pos].text();
            let want = owned(sym);
            if got == want {
                Ok(())
            } else {
                let m = joined(owned("Expected: '"), sym);
                let m = joined(m, "'. Got: '");
                let m = joined(m, got.as_str());
                Err(joined(m, "'."))
            }
        } else {
            let m = joined(owned("Index out of bounds while expecting symbol: '"), sym);
            Err(joined(m, "'"))
        }
    }

    /// Like [`Reader::expect`], and moves to the next token on success.
    pub fn skip(&mut self, sym: &str) -> (out: Result<(), String>)
        ensures
            final(self)@.tokens == old(self)@.tokens,
            match expect_outcome(old(self)@.tokens, old(self)@.pos, sym@) {
                Ok(_) => out is Ok && final(self)@.pos == old(self)@.pos + 1,
                Err(m) => out is Err && out->Err_0@ == m && final(self)@.pos == old(self)@.pos,
            },
            out is Ok ==> old(self)@.pos < old(self)@.tokens.len() <= usize::MAX,
    {
        proof {
            lemma_token_views(self.tokens@);
            assert(self.tokens@.len() == self.tokens.len());
        }
        match self.expect(sym) {
            Ok(_) => {
                self.pos += 1;
                Ok(())
            },
            Err(m) => Err(m),
        }
    }

    /// The current token.
    pub fn sym(&self) -> (out: Option<Token>)
        ensures
            0 <= self@.pos,
            self@.tokens.len() <= usize::MAX,
            out.is_some() == token_at(self@.tokens, self@.pos).is_some(),
            out matches Some(t) ==> token_at(self@.tokens, self@.pos) == Some(t@),
    {
        proof {
            lemma_token_views(self.tokens@);
            assert(self.tokens@.len() == self.tokens.len());
        }
        if self.pos < self.tokens.len() {
            Some(self.tokens[self.pos].clone())
        } else {
            None
        }
    }

    /// Moves to the next token and returns it.
    pub fn next(&mut self) -> (out: Option<Token>)
        requires
            old(self)@.pos < usize::MAX,
        ensures
            final(self)@.tokens == old(self)@.tokens,
            final(self)@.pos == old(self)@.pos + 1,
            final(self)@.tokens.len() <= usize::MAX,
            out.is_some() == token_at(final(self)@.tokens, final(self)@.pos).is_some(),
            out matches Some(t) ==> token_at(final(self)@.tokens, final(self)@.pos) == Some(t@),
    {
        proof {
            lemma_token_views(self.tokens@);
            assert(self.tokens@.len() == self.tokens.len());
        }
        self.pos += 1;
        self.sym()
    }

    /// The token after the current one.
    pub fn peek(&self) -> (out: Option<Token>)
        ensures
            0 <= self@.pos,
            self@.tokens.len() <= usize::MAX,
            out.is_some() == token_at(self@.tokens, self@.pos + 1).is_some(),
            out matches Some(t) ==> token_at(self@.tokens, self@.pos + 1) == Some(t@),
    {
        proof {
            lemma_token_views(self.tokens@);
            assert(self.tokens@.len() == self.tokens.len());
        }
        if self.pos < usize::MAX && self.pos + 1 < self.tokens.len() {
            Some(self.tokens[self.pos + 1].clone())
        } else {
            None
        }
    }

    /// All the tokens.
    pub fn tokens(&self) -> (out: &Vec<Token>)
        ensures
            token_views(out@) == self@.tokens,
    {
        &self.tokens
    }

    /// The index of the current token.
    pub fn pos(&self) -> (out: usize)
        ensures
            out == self@.pos,
    {
        self.pos
    }

    /// The number of tokens.
    pub fn len(&self) -> (out: usize)
        ensures
            out == self@.tokens.len(),
    {
        proof {
            lemma_token_views(self.tokens@);
            assert(self.tokens@.len() == self.tokens.len());
        }
        self.tokens.len()
    }

    /// Whether a token follows the current one.
    pub fn more(&self) -> (out: bool)
        ensures
            0 <= self@.pos,
            self@.tokens.len() <= usize::MAX,
            out == (self@.pos + 1 < self@.tokens.len()),
    {
        proof {
            lemma_token_views(self.tokens@);
            assert(self.tokens@.len() == self.tokens.len());
        }
        self.pos < usize::MAX && self.tokens.len() > self.pos + 1
    }

    /// The cursor and the number of tokens are machine numbers.
    pub proof fn lemma_bounds(&self)
        ensures
            0 <= self@.pos <= usize::MAX,
            self@.tokens.len() <= usize::MAX,
    {
        lemma_token_views(self.tokens@);
        assert(self.tokens@.len() == self.tokens.len());
    }

    /// The error with the given message at the token with the given index.
    pub fn fault(&self, index: usize, message: String) -> (out: ParseError)
        ensures
            out@ == fault_at(self@.tokens, index as int, message@),
    {
        proof {
            lemma_token_views(self.tokens@);
            assert(self.tokens@.len() == self.tokens.len());
        }
        if index < self.tokens.len() {
            let (line, column) = self.tokens[index].find_token_position();
            ParseError { message, line, column }
        } else {
            ParseError { message, line: 0, column: 0 }
        }
    }
}

} // verus!
