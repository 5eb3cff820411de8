//! Tokens as the formatter sees them, and the stream it draws them from.

use vstd::prelude::*;

verus! {

/// The kinds of token that the formatter tells apart.
///
/// Everything the spacing, line-break and nesting rules do not single out
/// is `Other`.
#[derive(Clone, Copy, Debug, PartialEq, Eq, Structural)]
pub enum TokenKind {
    /// A name: an identifier or a keyword other than `match`.
    Ident,
    /// The keyword `match`. For spacing it is a name like any other.
    Match,
    /// `!`, which after a name marks a macro invocation.
    Not,
    /// `:`
    Colon,
    /// `,`
    Comma,
    /// `;`
    Semi,
    /// `=`
    Eq,
    /// `<`
    Lt,
    /// `<=`
    Le,
    /// `==`
    EqEq,
    /// `!=`
    Ne,
    /// `>=`
    Ge,
    /// `>`
    Gt,
    /// `&&`
    AndAnd,
    /// `||`
    OrOr,
    /// `~`
    Tilde,
    /// `(`
    LParen,
    /// `)`
    RParen,
    /// `{`
    LBrace,
    /// `}`
    RBrace,
    /// `&`, which binds to what follows it.
    Ampersand,
    /// A binary operator other than `&`: `+ - * / % ^ | << >>`.
    BinOp,
    /// A compound assignment: `+=`, `&=`, `<<=` and the like.
    BinOpEq,
    /// `::`
    ModSep,
    /// `->`
    RArrow,
    /// `=>`
    FatArrow,
    /// Any other token: a literal, a bracket, a dot, a lifetime, ...
    Other,
}

/// One token: its kind and its canonical spelling.
#[derive(Debug, PartialEq, Eq)]
pub struct Token {
    pub kind: TokenKind,
    pub text: String,
}

impl Token {
    /// The number of columns the token takes: the characters of its spelling.
    pub open spec fn width(self) -> nat {
        self.text@.len()
    }

    pub fn new(kind: TokenKind, text: &str) -> (token: Token)
        ensures
            token.kind == kind,
            token.text@ == text@,
    {
        Token { kind, text: text.to_owned() }
    }

    /// A second token equal to this one.
    pub fn duplicate(&self) -> (token: Token)
        ensures
            token == *self,
    {
        Token { kind: self.kind, text: self.text.clone() }
    }
}

/// A sequence of tokens read from front to back, one token of lookahead.
pub struct TokenStream {
    tokens: Vec<Token>,
    pos: usize,
}

impl TokenStream {
    /// All tokens of the stream, consumed or not.
    pub closed spec fn tokens(&self) -> Seq<Token> {
        self.tokens@
    }

    /// How many tokens have been consumed.
    pub closed spec fn consumed(&self) -> nat {
        self.pos as nat
    }

    /// Never more is consumed than there is.
    #[verifier::type_invariant]
    pub open spec fn within_bounds(&self) -> bool {
        self.consumed() <= self.tokens().len()
    }

    pub fn new(tokens: Vec<Token>) -> (stream: TokenStream)
        ensures
            stream.tokens() == tokens@,
            stream.consumed() == 0,
    {
        TokenStream { tokens, pos: 0 }
    }

    /// Whether every token has been consumed.
    pub fn is_eof(&self) -> (eof: bool)
        ensures
            eof == (self.consumed() == self.tokens().len()),
            self.consumed() <= self.tokens().len(),
    {
        proof {
            use_type_invariant(self);
        }
        self.pos >= self.tokens.len()
    }

    /// The number of tokens in the stream, consumed or not.
    pub fn len(&self) -> (n: usize)
        ensures
            n == self.tokens().len(),
    {
        self.tokens.len()
    }

    /// The number of tokens consumed so far.
    pub fn position(&self) -> (n: usize)
        ensures
            n == self.consumed(),
    {
        self.pos
    }

    /// The next token, left in the stream.
    pub fn peek(&self) -> (next: Option<&Token>)
        ensures
            self.consumed() < self.tokens().len() ==> next == Some(
                &self.tokens()[self.consumed() as int],
            ),
            self.consumed() >= self.tokens().len() ==> next is None,
    {
        if self.pos < self.tokens.len() {
            Some(&self.tokens[self.pos])
        } else {
            None
        }
    }

    /// Consumes the next token and hands it out.
    pub fn next_token(&mut self) -> (next: Option<&Token>)
        ensures
            final(self).tokens() == old(self).tokens(),
            old(self).consumed() < old(self).tokens().len() ==> next == Some(
                &old(self).tokens()[old(self).consumed() as int],
            ) && final(self).consumed() == old(self).consumed() + 1,
            old(self).consumed() >= old(self).tokens().len() ==> next is None
                && final(self).consumed() == old(self).consumed(),
    {
        proof {
            use_type_invariant(&*self);
        }
        if self.pos < self.tokens.len() {
            self.pos = self.pos + 1;
            Some(&self.tokens[self.pos - 1])
        } else {
            None
        }
    }
}

} // verus!
