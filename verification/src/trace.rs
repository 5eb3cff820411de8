//! A run from the first token, told position by position, and what holds
//! at every position of it: how the comma rule follows the innermost open
//! construct, how the indentation follows the braces, and that the text
//! written depends on the written tokens alone.

use crate::line_token::TAB_WIDTH;
use crate::logical_line::line_text;
use crate::nesting::{
    after_token, initial_state, opened_by, run, scopes_after, top_scope, Scope, ScopeKind, State,
};
use crate::token::{Token, TokenKind};
use vstd::prelude::*;

verus! {

/// The constructs that are open once the first `n` tokens have been
/// consumed, the innermost last. The first is always the whole input.
pub open spec fn scopes_at(tokens: Seq<Token>, n: int) -> Seq<Scope>
    decreases n,
{
    if n <= 0 {
        seq![top_scope(false)]
    } else {
        scopes_after(scopes_at(tokens, n - 1), tokens[n - 1].kind)
    }
}

/// The state once the first `n` tokens have been consumed.
pub open spec fn state_at(tokens: Seq<Token>, n: int) -> State
    decreases n,
{
    if n <= 0 {
        initial_state()
    } else {
        after_token(
            state_at(tokens, n - 1),
            tokens[n - 1],
            scopes_at(tokens, n - 1).last().newline_after_comma,
        )
    }
}

/// The text that formatting `tokens` from the beginning writes: the output
/// once the last token has been consumed. What is left on the line in
/// progress then is not written.
pub open spec fn formatted(tokens: Seq<Token>) -> Seq<char> {
    state_at(tokens, tokens.len() as int).output
}

/// A scope that waits for a token waits for `)` and lets commas pass, or
/// waits for `}` and has them break lines.
pub open spec fn coherent(scope: Scope) -> bool {
    match scope.kind {
        ScopeKind::Until(closer) => (closer is RParen && !scope.newline_after_comma) || (closer
            is RBrace && scope.newline_after_comma),
        _ => true,
    }
}

/// How many of `scopes` are brace blocks or bodies of a match.
pub open spec fn open_blocks(scopes: Seq<Scope>) -> int
    decreases scopes.len(),
{
    if scopes.len() == 0 {
        0
    } else {
        open_blocks(scopes.drop_last()) + if scopes.last().kind == ScopeKind::Until(
            TokenKind::RBrace,
        ) {
            1int
        } else {
            0int
        }
    }
}

/// Every `}` among the first `n` tokens closes a block: it comes where a
/// brace block or the body of a match is the innermost open construct.
pub open spec fn well_nested(tokens: Seq<Token>, n: int) -> bool {
    forall|i: int|
        0 <= i < n && tokens[i].kind is RBrace ==> (#[trigger] scopes_at(tokens, i)).last().kind
            == ScopeKind::Until(TokenKind::RBrace)
}

/// How many more `{` than `}` there are among the first `n` tokens.
pub open spec fn brace_depth(tokens: Seq<Token>, n: int) -> int
    decreases n,
{
    if n <= 0 {
        0
    } else {
        brace_depth(tokens, n - 1) + if tokens[n - 1].kind is LBrace {
            1int
        } else if tokens[n - 1].kind is RBrace {
            -1int
        } else {
            0int
        }
    }
}

/// At every position the whole input is open and is the outermost scope,
/// every scope is coherent, as many tokens are consumed as the position
/// says, and the line in progress does not end in `{`.
pub proof fn lemma_trace_shape(tokens: Seq<Token>, n: int)
    requires
        0 <= n,
    ensures
        scopes_at(tokens, n).len() >= 1,
        scopes_at(tokens, n)[0] == top_scope(false),
        forall|i: int|
            0 <= i < scopes_at(tokens, n).len() ==> coherent(#[trigger] scopes_at(tokens, n)[i]),
        forall|i: int|
            1 <= i < scopes_at(tokens, n).len() ==> !((#[trigger] scopes_at(tokens, n)[i]).kind
                is Top),
        state_at(tokens, n).consumed == n,
        state_at(tokens, n).line.len() > 0 ==> !(state_at(tokens, n).line.last().kind is LBrace),
    decreases n,
{
    if n > 0 {
        lemma_trace_shape(tokens, n - 1);
    }
}

/// The machine, run from any position of the trace, ends in the last
/// position: the run is the trace.
pub proof fn lemma_run_is_trace(tokens: Seq<Token>, n: int)
    requires
        0 <= n <= tokens.len(),
    ensures
        run(tokens, state_at(tokens, n), scopes_at(tokens, n)) == (
            state_at(tokens, tokens.len() as int),
            scopes_at(tokens, tokens.len() as int),
        ),
    decreases tokens.len() - n,
{
    lemma_trace_shape(tokens, n);
    if n < tokens.len() {
        lemma_run_is_trace(tokens, n + 1);
    }
}

/// A comma directly inside a parenthesised group never ends its line,
/// whatever the group stands in: it joins the line in progress and nothing
/// is written. A comma directly inside a brace block or the body of a
/// match always ends its line: the line is written with the comma as its
/// last token.
pub proof fn lemma_comma_follows_innermost_scope(tokens: Seq<Token>, n: int)
    requires
        0 <= n < tokens.len(),
        tokens[n].kind is Comma,
    ensures
        scopes_at(tokens, n).last().kind == ScopeKind::Until(TokenKind::RParen) ==> {
            &&& state_at(tokens, n + 1).line == state_at(tokens, n).line.push(tokens[n])
            &&& state_at(tokens, n + 1).output == state_at(tokens, n).output
        },
        scopes_at(tokens, n).last().kind == ScopeKind::Until(TokenKind::RBrace) ==> {
            &&& state_at(tokens, n + 1).line.len() == 0
            &&& state_at(tokens, n + 1).output == state_at(tokens, n).output + line_text(
                state_at(tokens, n).line.push(tokens[n]),
                state_at(tokens, n).indent,
            )
        },
{
    lemma_trace_shape(tokens, n);
}

/// The indentation is one step for every `{` consumed that no `}` consumed
/// after it has made up for: every `{` adds a step once its line is
/// written, and every `}` takes one away before its own line.
pub proof fn lemma_indent_follows_braces(tokens: Seq<Token>, n: int)
    requires
        0 <= n,
    ensures
        state_at(tokens, n).indent == TAB_WIDTH * brace_depth(tokens, n),
    decreases n,
{
    if n > 0 {
        lemma_trace_shape(tokens, n - 1);
        lemma_indent_follows_braces(tokens, n - 1);
    }
}

/// Over a stretch of tokens that holds as many `{` as `}`, as every
/// construct that is opened and closed in it does, the changes of
/// indentation add up to nothing.
pub proof fn lemma_closed_braces_restore_indent(tokens: Seq<Token>, from: int, to: int)
    requires
        0 <= from <= to,
        brace_depth(tokens, to) == brace_depth(tokens, from),
    ensures
        state_at(tokens, to).indent == state_at(tokens, from).indent,
{
    lemma_indent_follows_braces(tokens, from);
    lemma_indent_follows_braces(tokens, to);
}

/// A `{` opens one more block, a `}` that closes a block leaves one
/// fewer, and no other token changes how many blocks are open.
proof fn lemma_open_blocks_after(scopes: Seq<Scope>, kind: TokenKind)
    requires
        scopes.len() >= 1,
        forall|i: int| 0 <= i < scopes.len() ==> coherent(#[trigger] scopes[i]),
        kind is RBrace ==> scopes.last().kind == ScopeKind::Until(TokenKind::RBrace),
    ensures
        open_blocks(scopes_after(scopes, kind)) == open_blocks(scopes) + if kind is LBrace {
            1int
        } else if kind is RBrace {
            -1int
        } else {
            0int
        },
{
    let after = scopes_after(scopes, kind);
    let opened = opened_by(kind, scopes.last().newline_after_comma);
    assert(coherent(scopes.last()));
    if after.len() == scopes.len() + 1 {
        assert(after.drop_last() =~= scopes);
    } else if after.len() == scopes.len() && scopes.last().kind is Head {
        assert(after.drop_last() =~= scopes.drop_last());
    } else if after.len() == scopes.len() {
        assert(after =~= scopes);
    }
}

/// On well-nested input the indentation is one step for every block that
/// is open: every `{` opens a block and adds a step once its line is
/// written, and every `}` closes one and takes the step away before its
/// own line.
pub proof fn lemma_indent_counts_open_blocks(tokens: Seq<Token>, n: int)
    requires
        0 <= n,
        well_nested(tokens, n),
    ensures
        state_at(tokens, n).indent == TAB_WIDTH * open_blocks(scopes_at(tokens, n)),
    decreases n,
{
    if n > 0 {
        lemma_trace_shape(tokens, n - 1);
        lemma_indent_counts_open_blocks(tokens, n - 1);
        lemma_indent_follows_braces(tokens, n - 1);
        lemma_indent_follows_braces(tokens, n);
        if tokens[n - 1].kind is RBrace {
            assert(scopes_at(tokens, n - 1).last().kind == ScopeKind::Until(TokenKind::RBrace));
        }
        lemma_open_blocks_after(scopes_at(tokens, n - 1), tokens[n - 1].kind);
    } else {
        assert(scopes_at(tokens, n).drop_last() =~= Seq::<Scope>::empty());
        assert(open_blocks(Seq::<Scope>::empty()) == 0);
    }
}

/// On well-nested input the changes of indentation over a construct that
/// has been closed add up to nothing: once the same constructs are open as
/// before, the indentation is what it was.
pub proof fn lemma_closed_construct_restores_indent(tokens: Seq<Token>, from: int, to: int)
    requires
        0 <= from <= to,
        well_nested(tokens, to),
        scopes_at(tokens, to) == scopes_at(tokens, from),
    ensures
        state_at(tokens, to).indent == state_at(tokens, from).indent,
{
    lemma_indent_counts_open_blocks(tokens, from);
    lemma_indent_counts_open_blocks(tokens, to);
}

/// What holds at a position depends on the tokens before it alone.
pub proof fn lemma_trace_of_prefix(tokens: Seq<Token>, m: int, n: int)
    requires
        0 <= n <= m <= tokens.len(),
    ensures
        scopes_at(tokens.take(m), n) == scopes_at(tokens, n),
        state_at(tokens.take(m), n) == state_at(tokens, n),
    decreases n,
{
    if n > 0 {
        lemma_trace_of_prefix(tokens, m, n - 1);
    }
}

/// The line in progress holds the tokens consumed last, and nothing has
/// been written since the first of them was consumed.
pub proof fn lemma_line_in_progress(tokens: Seq<Token>, n: int)
    requires
        0 <= n,
    ensures
        state_at(tokens, n).line.len() <= n,
        state_at(tokens, n - state_at(tokens, n).line.len()).line.len() == 0,
        state_at(tokens, n - state_at(tokens, n).line.len()).output == state_at(tokens, n).output,
    decreases n,
{
    if n > 0 {
        lemma_line_in_progress(tokens, n - 1);
    }
}

/// The text written depends on the written tokens alone: formatting only
/// the tokens that were written, without those left on the line in
/// progress, writes the same text again and leaves no line in progress.
/// So wherever reading the written text gives back the written tokens,
/// formatting what was written reproduces it.
pub proof fn lemma_written_tokens_format_alike(tokens: Seq<Token>)
    ensures
        ({
            let end = tokens.len() as int;
            let written = tokens.take(end - state_at(tokens, end).line.len());
            &&& 0 <= written.len() <= end
            &&& formatted(written) == formatted(tokens)
            &&& state_at(written, written.len() as int).line.len() == 0
        }),
{
    let end = tokens.len() as int;
    let m = end - state_at(tokens, end).line.len();
    lemma_line_in_progress(tokens, end);
    lemma_trace_of_prefix(tokens, m, m);
}

} // verus!
