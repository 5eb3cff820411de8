//! What the formatter does, told as a machine that reads one token at a
//! time and keeps the open constructs on an explicit stack.
//!
//! The formatter itself keeps no such stack: it descends into a construct by
//! calling itself. Its contracts say that the two agree.

use crate::line_token::{preindentation, starts_logical_line};
use crate::logical_line::{line_text, postindentation};
use crate::token::{Token, TokenKind};
use vstd::prelude::*;

verus! {

/// The state of a formatting run, but for the comma rule in force.
pub struct State {
    /// How many tokens have been consumed.
    pub consumed: nat,
    /// The indentation of the next line to be written, in columns. It may
    /// be negative.
    pub indent: int,
    /// The tokens of the line in progress.
    pub line: Seq<Token>,
    /// The kind of the token looked at last.
    pub last_token: TokenKind,
    /// Everything written so far.
    pub output: Seq<char>,
}

/// The state in which a run begins.
pub open spec fn initial_state() -> State {
    State {
        consumed: 0,
        indent: 0,
        line: Seq::empty(),
        last_token: TokenKind::Semi,
        output: Seq::empty(),
    }
}

/// Whether a token of this kind is the last of its logical line: `{`, `;`
/// and `}` always are, `,` is where commas break lines.
pub open spec fn ends_logical_line(kind: TokenKind, newline_after_comma: bool) -> bool {
    kind is LBrace || kind is Semi || kind is RBrace || (kind is Comma && newline_after_comma)
}

/// The state once the line in progress has been written out: its text
/// joins the output, the indentation takes the line's change, and a new
/// line begins. An empty line is not written: nothing changes.
pub open spec fn flushed(s: State) -> State {
    if s.line.len() == 0 {
        s
    } else {
        State {
            consumed: s.consumed,
            indent: s.indent + postindentation(s.line),
            line: Seq::empty(),
            last_token: s.last_token,
            output: s.output + line_text(s.line, s.indent),
        }
    }
}

/// The state once `token` has been consumed.
///
/// A token that begins a line first has the line in progress written out.
/// A token that comes first on its line changes the indentation before the
/// line is laid out. A token that ends its line has the line written out at
/// once.
pub open spec fn after_token(s: State, token: Token, newline_after_comma: bool) -> State {
    let opened = if starts_logical_line(token.kind) {
        flushed(s)
    } else {
        s
    };
    let appended = State {
        consumed: s.consumed + 1,
        indent: if opened.line.len() == 0 {
            opened.indent + preindentation(token.kind)
        } else {
            opened.indent
        },
        line: opened.line.push(token),
        last_token: token.kind,
        output: opened.output,
    };
    if ends_logical_line(token.kind, newline_after_comma) {
        flushed(appended)
    } else {
        appended
    }
}

/// What an open construct is waiting for.
pub enum ScopeKind {
    /// The whole input: it waits for nothing and is never closed.
    Top,
    /// The head of a match, from the keyword to the `{` that opens its
    /// body. No construct is recognised inside it.
    Head,
    /// A construct that lasts until a token of the given kind.
    Until(TokenKind),
}

/// An open construct, with the comma rule in force directly inside it.
pub struct Scope {
    pub kind: ScopeKind,
    pub newline_after_comma: bool,
}

/// A construct that lasts until a token of kind `closer`, under a given
/// comma rule.
pub open spec fn until_scope(closer: TokenKind, newline_after_comma: bool) -> Scope {
    Scope { kind: ScopeKind::Until(closer), newline_after_comma }
}

/// The body of a brace block or of a match: closed by `}`, commas break
/// lines.
pub open spec fn block_scope() -> Scope {
    until_scope(TokenKind::RBrace, true)
}

/// A parenthesised group: closed by `)`, commas do not break lines.
pub open spec fn group_scope() -> Scope {
    until_scope(TokenKind::RParen, false)
}

/// The head of a match, which keeps the comma rule it was met under.
pub open spec fn head_scope(newline_after_comma: bool) -> Scope {
    Scope { kind: ScopeKind::Head, newline_after_comma }
}

/// The whole input under a given comma rule.
pub open spec fn top_scope(newline_after_comma: bool) -> Scope {
    Scope { kind: ScopeKind::Top, newline_after_comma }
}

/// The construct that a token of this kind opens, if it opens one, met
/// under the given comma rule: none or one scope.
pub open spec fn opened_by(kind: TokenKind, newline_after_comma: bool) -> Seq<Scope> {
    match kind {
        TokenKind::Match => seq![head_scope(newline_after_comma)],
        TokenKind::LBrace => seq![block_scope()],
        TokenKind::LParen => seq![group_scope()],
        _ => Seq::empty(),
    }
}

/// The open constructs once a token of kind `kind` has been consumed with
/// `scopes` open, the innermost last.
///
/// In the head of a match only `{` counts: it turns the head into the
/// body. Elsewhere the token that the innermost construct waits for closes
/// it, and any other token opens what it opens.
pub open spec fn scopes_after(scopes: Seq<Scope>, kind: TokenKind) -> Seq<Scope> {
    if scopes.len() == 0 {
        scopes
    } else {
        let innermost = scopes.last();
        match innermost.kind {
            ScopeKind::Head => if kind is LBrace {
                scopes.drop_last().push(block_scope())
            } else {
                scopes
            },
            ScopeKind::Until(closer) => if kind == closer {
                scopes.drop_last()
            } else {
                scopes + opened_by(kind, innermost.newline_after_comma)
            },
            ScopeKind::Top => scopes + opened_by(kind, innermost.newline_after_comma),
        }
    }
}

/// Runs the machine from state `s` with `scopes` open until the last of
/// them is closed or the tokens run out, and gives the state and the
/// scopes it ends with. Each token is consumed under the comma rule of the
/// innermost scope.
pub open spec fn run(tokens: Seq<Token>, s: State, scopes: Seq<Scope>) -> (State, Seq<Scope>)
    decreases tokens.len() - s.consumed,
{
    if scopes.len() == 0 || s.consumed >= tokens.len() {
        (s, scopes)
    } else {
        let token = tokens[s.consumed as int];
        run(
            tokens,
            after_token(s, token, scopes.last().newline_after_comma),
            scopes_after(scopes, token.kind),
        )
    }
}

/// Consumes tokens under one comma rule, opening nothing, until a token of
/// kind `stop` has been consumed or the tokens run out. Gives the state
/// reached and whether `stop` was found.
pub open spec fn scan(tokens: Seq<Token>, s: State, stop: TokenKind, newline_after_comma: bool) -> (
    State,
    bool,
)
    decreases tokens.len() - s.consumed,
{
    if s.consumed >= tokens.len() {
        (s, false)
    } else {
        let token = tokens[s.consumed as int];
        let next = after_token(s, token, newline_after_comma);
        if token.kind == stop {
            (next, true)
        } else {
            scan(tokens, next, stop, newline_after_comma)
        }
    }
}

/// A run never gives tokens back, never reads past the end, and stops with
/// a scope still open only where the tokens have run out.
pub proof fn lemma_run_progress(tokens: Seq<Token>, s: State, scopes: Seq<Scope>)
    ensures
        run(tokens, s, scopes).0.consumed >= s.consumed,
        s.consumed <= tokens.len() ==> run(tokens, s, scopes).0.consumed <= tokens.len(),
        run(tokens, s, scopes).1.len() > 0 ==> run(tokens, s, scopes).0.consumed >= tokens.len(),
    decreases tokens.len() - s.consumed,
{
    if scopes.len() == 0 || s.consumed >= tokens.len() {
    } else {
        let token = tokens[s.consumed as int];
        lemma_run_progress(
            tokens,
            after_token(s, token, scopes.last().newline_after_comma),
            scopes_after(scopes, token.kind),
        );
    }
}

/// A scan never gives tokens back, never reads past the end, and fails only
/// where the tokens have run out.
pub proof fn lemma_scan_progress(
    tokens: Seq<Token>,
    s: State,
    stop: TokenKind,
    newline_after_comma: bool,
)
    ensures
        scan(tokens, s, stop, newline_after_comma).0.consumed >= s.consumed,
        s.consumed <= tokens.len() ==> scan(tokens, s, stop, newline_after_comma).0.consumed
            <= tokens.len(),
        !scan(tokens, s, stop, newline_after_comma).1 ==> scan(
            tokens,
            s,
            stop,
            newline_after_comma,
        ).0.consumed >= tokens.len(),
    decreases tokens.len() - s.consumed,
{
    if s.consumed < tokens.len() {
        let token = tokens[s.consumed as int];
        if token.kind != stop {
            lemma_scan_progress(
                tokens,
                after_token(s, token, newline_after_comma),
                stop,
                newline_after_comma,
            );
        }
    }
}

/// What happens inside the innermost constructs does not depend on the
/// constructs around them: with `inner` open inside `outer`, the machine
/// runs as with `inner` alone until the last of `inner` is closed, and
/// goes on from there with `outer`.
pub proof fn lemma_run_nested(tokens: Seq<Token>, s: State, outer: Seq<Scope>, inner: Seq<Scope>)
    requires
        inner.len() > 0,
    ensures
        run(tokens, s, outer + inner) == if run(tokens, s, inner).1.len() == 0 {
            run(tokens, run(tokens, s, inner).0, outer)
        } else {
            (run(tokens, s, inner).0, outer + run(tokens, s, inner).1)
        },
    decreases tokens.len() - s.consumed,
{
    let all = outer + inner;
    assert(all.last() == inner.last());
    if s.consumed >= tokens.len() {
        assert(run(tokens, s, inner) == (s, inner));
        assert(run(tokens, s, all) == (s, all));
    } else {
        let token = tokens[s.consumed as int];
        let next = after_token(s, token, inner.last().newline_after_comma);
        let inner_next = scopes_after(inner, token.kind);
        assert(scopes_after(all, token.kind) == outer + inner_next) by {
            assert(all.drop_last() =~= outer + inner.drop_last());
            assert(scopes_after(all, token.kind) =~= outer + inner_next);
        }
        assert(run(tokens, s, inner) == run(tokens, next, inner_next));
        assert(run(tokens, s, all) == run(tokens, next, outer + inner_next));
        if inner_next.len() == 0 {
            assert(outer + inner_next =~= outer);
            assert(run(tokens, next, inner_next) == (next, inner_next));
        } else {
            lemma_run_nested(tokens, next, outer, inner_next);
        }
    }
}

/// In the head of a match the machine scans for `{` under the comma rule
/// of the head, and at the `{` goes on in the body of the match.
pub proof fn lemma_run_head(tokens: Seq<Token>, s: State, newline_after_comma: bool)
    ensures
        run(tokens, s, seq![head_scope(newline_after_comma)]) == if scan(
            tokens,
            s,
            TokenKind::LBrace,
            newline_after_comma,
        ).1 {
            run(
                tokens,
                scan(tokens, s, TokenKind::LBrace, newline_after_comma).0,
                seq![block_scope()],
            )
        } else {
            (
                scan(tokens, s, TokenKind::LBrace, newline_after_comma).0,
                seq![head_scope(newline_after_comma)],
            )
        },
    decreases tokens.len() - s.consumed,
{
    let head = seq![head_scope(newline_after_comma)];
    if s.consumed < tokens.len() {
        let token = tokens[s.consumed as int];
        let next = after_token(s, token, newline_after_comma);
        if token.kind is LBrace {
            assert(scopes_after(head, token.kind) =~= seq![block_scope()]);
        } else {
            assert(scopes_after(head, token.kind) == head);
            lemma_run_head(tokens, next, newline_after_comma);
        }
    }
}

} // verus!
