use vstd::prelude::*;

verus! {

/// A position in the source text, 1-based.
#[derive(Clone, Copy, PartialEq, Eq, Structural, Debug)]
pub struct Loc {
    pub row: usize,
    pub col: usize,
}

#[derive(Clone, Copy, PartialEq, Eq, Structural, Debug)]
pub enum TokenKind {
    Ident,
    OpenParen,
    CloseParen,
    Comma,
    Equals,
    Plus,
    Dash,
    Asterisk,
    Slash,
    Caret,
    Rule,
    Shape,
    Apply,
    Done,
    Undo,
    Quit,
    Delete,
    Reverse,
    Invalid,
    End,
}

/// A token as the lexer hands it over.
#[derive(Debug)]
pub struct Token {
    pub kind: TokenKind,
    pub text: String,
    pub loc: Loc,
}

pub struct TokenView {
    pub kind: TokenKind,
    pub text: Seq<char>,
    pub loc: Loc,
}

impl View for Token {
    type V = TokenView;

    open spec fn view(&self) -> TokenView {
        TokenView { kind: self.kind, text: self.text@, loc: self.loc }
    }
}

impl Clone for Token {
    fn clone(&self) -> (r: Token)
        ensures
            r@ == self@,
    {
        Token { kind: self.kind, text: self.text.clone(), loc: self.loc }
    }
}

/// The token at position `i`; past the last token, an end-of-input token at
/// `end`.
pub open spec fn token_at(ts: Seq<TokenView>, end: Loc, i: nat) -> TokenView {
    if i < ts.len() {
        ts[i as int]
    } else {
        TokenView { kind: TokenKind::End, text: Seq::empty(), loc: end }
    }
}

/// Identifiers are never empty.
pub open spec fn tokens_wf(ts: Seq<TokenView>) -> bool {
    forall|i: int|
        0 <= i < ts.len() && (#[trigger] ts[i]).kind == TokenKind::Ident ==> ts[i].text.len() > 0
}

pub struct TokensView {
    pub items: Seq<TokenView>,
    pub pos: nat,
    pub end: Loc,
}

/// A token stream with one token of lookahead.
pub struct Tokens {
    items: Vec<Token>,
    pos: usize,
    end: Loc,
}

impl View for Tokens {
    type V = TokensView;

    closed spec fn view(&self) -> TokensView {
        TokensView {
            items: self.items@.map_values(|t: Token| t@),
            pos: self.pos as nat,
            end: self.end,
        }
    }
}

impl Tokens {
    pub open spec fn wf(&self) -> bool {
        &&& tokens_wf(self@.items)
        &&& self@.pos <= self@.items.len()
    }

    /// A stream over `items`, followed by end-of-input at `end`.
    pub fn new(items: Vec<Token>, end: Loc) -> (r: Tokens)
        requires
            tokens_wf(items@.map_values(|t: Token| t@)),
        ensures
            r.wf(),
            r@.items == items@.map_values(|t: Token| t@),
            r@.pos == 0,
            r@.end == end,
    {
        Tokens { items, pos: 0, end }
    }

    /// The next token, without consuming it.
    pub fn peek_token(&self) -> (r: Token)
        requires
            self.wf(),
        ensures
            r@ == token_at(self@.items, self@.end, self@.pos),
    {
        if self.pos < self.items.len() {
            self.items[self.pos].clone()
        } else {
            Token { kind: TokenKind::End, text: String::new(), loc: self.end }
        }
    }

    /// Consumes the next token.
    pub fn next_token(&mut self) -> (r: Token)
        requires
            old(self).wf(),
        ensures
            final(self).wf(),
            r@ == token_at(old(self)@.items, old(self)@.end, old(self)@.pos),
            final(self)@.items == old(self)@.items,
            final(self)@.end == old(self)@.end,
            final(self)@.pos == if old(self)@.pos < old(self)@.items.len() {
                old(self)@.pos + 1
            } else {
                old(self)@.pos
            },
    {
        let r = self.peek_token();
        if self.pos < self.items.len() {
            self.pos = self.pos + 1;
        }
        r
    }
}

} // verus!
