//! A token on a logical line, and the rules that depend on its kind alone:
//! the space between two neighbours, which token opens a line of its own,
//! and by how much a token moves the indentation before its line.

use crate::token::{Token, TokenKind};
use vstd::prelude::*;
use vstd::string::StrSliceExecFns;

verus! {

/// The number of columns of one indentation step.
pub const TAB_WIDTH: i64 = 4;

/// Names: identifiers and keywords, `match` among them.
pub open spec fn is_name(kind: TokenKind) -> bool {
    kind is Ident || kind is Match
}

/// Assignment, the comparisons, the lazy boolean operators and `~`.
pub open spec fn is_comparison(kind: TokenKind) -> bool {
    kind is Eq || kind is Lt || kind is Le || kind is EqEq || kind is Ne || kind is Ge
        || kind is Gt || kind is AndAnd || kind is OrOr || kind is Tilde
}

/// The binary operators, `&` included, and the compound assignments.
pub open spec fn is_binary_operator(kind: TokenKind) -> bool {
    kind is Ampersand || kind is BinOp || kind is BinOpEq
}

/// `->` and `=>`.
pub open spec fn is_arrow(kind: TokenKind) -> bool {
    kind is RArrow || kind is FatArrow
}

/// `{` and `}`.
pub open spec fn is_brace(kind: TokenKind) -> bool {
    kind is LBrace || kind is RBrace
}

/// Whether exactly one space stands between a token of kind `left` and a
/// token of kind `right` that follows it on the same line.
///
/// The rules are tried from top to bottom, and the first that applies
/// decides.
pub open spec fn space_between(left: TokenKind, right: TokenKind) -> bool {
    if is_name(left) && is_name(right) {
        true
    } else if is_name(left) && right is Not {
        false
    } else if left is Colon || left is Comma {
        true
    } else if is_comparison(left) || is_comparison(right) {
        true
    } else if left is LParen || right is RParen {
        false
    } else if left is Ampersand {
        false
    } else if is_binary_operator(left) || is_binary_operator(right) {
        true
    } else if left is ModSep || right is ModSep {
        false
    } else if is_arrow(left) || is_arrow(right) {
        true
    } else if is_brace(left) || is_brace(right) {
        true
    } else {
        false
    }
}

/// Whether a token of this kind always begins a logical line.
pub open spec fn starts_logical_line(kind: TokenKind) -> bool {
    kind is RBrace
}

/// The change of indentation that a token of this kind asks for before the
/// line it begins is laid out.
pub open spec fn preindentation(kind: TokenKind) -> int {
    if kind is RBrace {
        -TAB_WIDTH
    } else {
        0
    }
}

/// A space follows `(` only where the next token is a comparison, and a
/// space precedes `)` only where the token before it is `:`, `,` or a
/// comparison. Before every other token `(` stands without a space, and
/// after every other token so does `)`.
pub proof fn lemma_parenthesis_spacing(other: TokenKind)
    ensures
        space_between(TokenKind::LParen, other) <==> is_comparison(other),
        space_between(other, TokenKind::RParen) <==> (other is Colon || other is Comma
            || is_comparison(other)),
{
}

/// A token together with the column at which its line's layout put it.
#[derive(Debug, PartialEq, Eq)]
pub struct LineToken {
    pub token: Token,
    pub x_pos: i64,
}

impl LineToken {
    /// Wraps a token that has not been laid out yet: its column is 0.
    pub fn new(token: Token) -> (line_token: LineToken)
        ensures
            line_token == (LineToken { token, x_pos: 0 }),
    {
        LineToken { token, x_pos: 0 }
    }

    /// Whether a space is needed between this token and `next`, which
    /// follows it on the same line.
    pub fn whitespace_needed_after(&self, next: &LineToken) -> (needed: bool)
        ensures
            needed == space_between(self.token.kind, next.token.kind),
    {
        match (self.token.kind, next.token.kind) {
            (TokenKind::Ident, TokenKind::Ident) => true,
            (TokenKind::Ident, TokenKind::Match) => true,
            (TokenKind::Match, TokenKind::Ident) => true,
            (TokenKind::Match, TokenKind::Match) => true,
            (TokenKind::Ident, TokenKind::Not) => false,
            (TokenKind::Match, TokenKind::Not) => false,
            (TokenKind::Colon, _) => true,
            (TokenKind::Comma, _) => true,
            (TokenKind::Eq, _) | (_, TokenKind::Eq) => true,
            (TokenKind::Lt, _) | (_, TokenKind::Lt) => true,
            (TokenKind::Le, _) | (_, TokenKind::Le) => true,
            (TokenKind::EqEq, _) | (_, TokenKind::EqEq) => true,
            (TokenKind::Ne, _) | (_, TokenKind::Ne) => true,
            (TokenKind::Ge, _) | (_, TokenKind::Ge) => true,
            (TokenKind::Gt, _) | (_, TokenKind::Gt) => true,
            (TokenKind::AndAnd, _) | (_, TokenKind::AndAnd) => true,
            (TokenKind::OrOr, _) | (_, TokenKind::OrOr) => true,
            (TokenKind::Tilde, _) | (_, TokenKind::Tilde) => true,
            (TokenKind::LParen, _) => false,
            (_, TokenKind::RParen) => false,
            (TokenKind::Ampersand, _) => false,
            (TokenKind::BinOp, _) | (_, TokenKind::BinOp) => true,
            (_, TokenKind::Ampersand) => true,
            (TokenKind::BinOpEq, _) | (_, TokenKind::BinOpEq) => true,
            (TokenKind::ModSep, _) | (_, TokenKind::ModSep) => false,
            (TokenKind::RArrow, _) | (_, TokenKind::RArrow) => true,
            (TokenKind::FatArrow, _) | (_, TokenKind::FatArrow) => true,
            (TokenKind::LBrace, _) | (_, TokenKind::LBrace) => true,
            (TokenKind::RBrace, _) | (_, TokenKind::RBrace) => true,
            _ => false,
        }
    }

    /// The number of columns the token takes.
    pub fn length(&self) -> (columns: usize)
        ensures
            columns == self.token.width(),
    {
        self.token.text.as_str().unicode_len()
    }

    /// Whether this token always begins a logical line.
    pub fn starts_logical_line(&self) -> (starts: bool)
        ensures
            starts == starts_logical_line(self.token.kind),
    {
        match self.token.kind {
            TokenKind::RBrace => true,
            _ => false,
        }
    }

    /// The change of indentation to make before the line that this token
    /// begins is laid out.
    pub fn preindentation(&self) -> (delta: i64)
        ensures
            delta == preindentation(self.token.kind),
    {
        match self.token.kind {
            TokenKind::RBrace => -TAB_WIDTH,
            _ => 0,
        }
    }
}

} // verus!
