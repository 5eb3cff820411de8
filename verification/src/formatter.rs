//! The formatter: it draws tokens from a stream, gathers them into logical
//! lines, descends into match blocks, brace blocks and parenthesised
//! groups, and writes each finished line to its output.

use crate::limits::{
    budget, fits, lemma_budget_nonnegative, lemma_extent_within_room, lemma_room_push, room,
    within_limits,
};
use crate::line_token::LineToken;
use crate::logical_line::{
    distance_after, lemma_gap_after_layout, lemma_written_text_after_layout, tokens_of,
    LogicalLine,
};
use crate::nesting::{
    after_token, block_scope, ends_logical_line, flushed, group_scope, head_scope,
    initial_state, lemma_run_head, lemma_run_nested, lemma_run_progress, lemma_scan_progress,
    opened_by, run, scan, scopes_after, top_scope, until_scope, Scope, State,
};
use crate::token::{Token, TokenKind, TokenStream};
use crate::trace::{formatted, lemma_run_is_trace, state_at};
use vstd::prelude::*;

verus! {

/// The construct that a token opens.
#[derive(Clone, Copy, Debug, PartialEq, Eq, Structural)]
pub enum ProductionToParse {
    MatchProduction,
    BracesProduction,
    ParenthesesProduction,
}

/// Formats the tokens of a stream.
pub struct Formatter {
    lexer: TokenStream,
    indent: i64,
    logical_line: LogicalLine,
    last_token: TokenKind,
    newline_after_comma: bool,
    output: String,
}

impl View for Formatter {
    type V = State;

    closed spec fn view(&self) -> State {
        State {
            consumed: self.lexer.consumed(),
            indent: self.indent as int,
            line: tokens_of(self.logical_line@),
            last_token: self.last_token,
            output: self.output@,
        }
    }
}

impl Formatter {
    /// The tokens that the formatter was given, consumed or not.
    pub closed spec fn tokens(&self) -> Seq<Token> {
        self.lexer.tokens()
    }

    /// The comma rule in force: whether a comma ends its logical line.
    pub closed spec fn comma_rule(&self) -> bool {
        self.newline_after_comma
    }

    /// The formatter has not read past its tokens, no token of the line in
    /// progress has a column yet, and what is left to do fits in `i64`.
    pub closed spec fn wf(&self) -> bool {
        &&& self.lexer.consumed() <= self.lexer.tokens().len()
        &&& forall|i: int|
            0 <= i < self.logical_line@.len() ==> (#[trigger] self.logical_line@[i]).x_pos == 0
        &&& vstd::math::abs(self.indent as int) + room(
            tokens_of(self.logical_line@),
            self.logical_line@.len() as int,
        ) + budget(self.lexer.tokens(), self.lexer.consumed() as int) <= i64::MAX
    }

    /// A formatter at the start of `lexer`'s remaining tokens: no
    /// indentation, an empty line, commas not breaking lines, nothing
    /// written.
    pub fn new(lexer: TokenStream) -> (formatter: Formatter)
        requires
            budget(lexer.tokens(), lexer.consumed() as int) <= i64::MAX,
        ensures
            formatter.wf(),
            formatter.tokens() == lexer.tokens(),
            !formatter.comma_rule(),
            formatter@ == (State { consumed: lexer.consumed(), ..initial_state() }),
    {
        proof {
            use_type_invariant(&lexer);
        }
        let formatter = Formatter {
            lexer,
            indent: 0,
            logical_line: LogicalLine::new(),
            last_token: TokenKind::Semi,
            newline_after_comma: false,
            output: String::new(),
        };
        assert(formatter@.line =~= Seq::<Token>::empty());
        formatter
    }

    /// Everything written so far.
    pub fn output(&self) -> (text: &String)
        ensures
            text@ == self@.output,
    {
        &self.output
    }

    /// Gives up the formatter for what it has written.
    pub fn into_output(self) -> (text: String)
        ensures
            text@ == self@.output,
    {
        self.output
    }

    /// The indentation of the next line to be written, in columns.
    pub fn indent(&self) -> (columns: i64)
        ensures
            columns == self@.indent,
    {
        self.indent
    }

    /// The line in progress.
    pub fn logical_line(&self) -> (line: &LogicalLine)
        ensures
            tokens_of(line@) == self@.line,
            self.wf() ==> forall|i: int| 0 <= i < line@.len() ==> (#[trigger] line@[i]).x_pos == 0,
    {
        &self.logical_line
    }

    /// The kind of the token looked at last; `;` before the first.
    pub fn last_token(&self) -> (kind: TokenKind)
        ensures
            kind == self@.last_token,
    {
        self.last_token
    }

    /// Whether a comma now ends its logical line.
    pub fn newline_after_comma(&self) -> (rule: bool)
        ensures
            rule == self.comma_rule(),
    {
        self.newline_after_comma
    }

    /// Whether `line_token` is the last token of its logical line under the
    /// comma rule in force.
    pub fn token_ends_logical_line(&self, line_token: &LineToken) -> (ends: bool)
        ensures
            ends == ends_logical_line(line_token.token.kind, self.comma_rule()),
    {
        match line_token.token.kind {
            TokenKind::LBrace | TokenKind::Semi | TokenKind::RBrace => true,
            TokenKind::Comma => self.newline_after_comma,
            _ => false,
        }
    }

    /// Writes the line in progress to the output, applies its change of
    /// indentation and begins a new line. Where the line is empty nothing
    /// is written and nothing changes.
    pub fn flush_line(&mut self)
        requires
            old(self).wf(),
        ensures
            final(self).wf(),
            final(self).tokens() == old(self).tokens(),
            final(self).comma_rule() == old(self).comma_rule(),
            final(self)@ == flushed(old(self)@),
    {
        if self.logical_line.len() == 0 {
            assert(self@.line.len() == 0);
            return;
        }
        let ghost line = tokens_of(self.logical_line@);
        proof {
            lemma_extent_within_room(line, line.len() as int);
            lemma_budget_nonnegative(self.lexer.tokens(), self.lexer.consumed() as int);
        }
        self.logical_line.layout(self.indent);
        proof {
            let placed = self.logical_line@;
            assert forall|i: int| 0 <= i < placed.len() implies i64::MIN
                <= #[trigger] distance_after(placed, i) <= i64::MAX by {
                lemma_gap_after_layout(placed, self.indent as int, i);
            }
            lemma_written_text_after_layout(placed, self.indent as int);
        }
        self.logical_line.write_to(self.indent, &mut self.output);
        self.indent = self.indent + self.logical_line.postindentation();
        self.logical_line = LogicalLine::new();
        assert(self@.line =~= Seq::<Token>::empty());
    }

    /// Consumes the next token, if there is one, and says whether there
    /// was.
    ///
    /// The token joins the line in progress; see [`after_token`] for the
    /// lines that this writes and for the indentation.
    pub fn next_token(&mut self) -> (consumed: bool)
        requires
            old(self).wf(),
        ensures
            final(self).wf(),
            final(self).tokens() == old(self).tokens(),
            final(self).comma_rule() == old(self).comma_rule(),
            consumed == (old(self)@.consumed < old(self).tokens().len()),
            consumed ==> final(self)@ == after_token(
                old(self)@,
                old(self).tokens()[old(self)@.consumed as int],
                old(self).comma_rule(),
            ),
            !consumed ==> final(self)@ == old(self)@,
    {
        let ghost tokens = self.lexer.tokens();
        let ghost at = self.lexer.consumed() as int;
        proof {
            lemma_budget_nonnegative(tokens, at + 1);
        }
        let line_token = match self.lexer.peek() {
            None => {
                return false;
            },
            Some(token) => LineToken::new(token.duplicate()),
        };
        self.last_token = line_token.token.kind;
        if line_token.starts_logical_line() && self.logical_line.len() > 0 {
            self.flush_line();
        }
        if self.logical_line.len() == 0 {
            self.indent = self.indent + line_token.preindentation();
        }
        self.lexer.next_token();
        let token_ends_logical_line = self.token_ends_logical_line(&line_token);
        proof {
            let line = tokens_of(self.logical_line@);
            lemma_room_push(line, line_token.token, line.len() as int);
            assert(tokens_of(self.logical_line@.push(line_token)) =~= line.push(line_token.token));
        }
        self.logical_line.push(line_token);
        if token_ends_logical_line {
            self.flush_line();
        }
        true
    }

    /// Consumes tokens, opening no construct, until a token of kind `stop`
    /// has been consumed, and says whether one was found before the tokens
    /// ran out.
    #[verifier::loop_isolation(false)]
    pub fn parse_tokens_up_to(&mut self, stop: TokenKind) -> (found: bool)
        requires
            old(self).wf(),
        ensures
            final(self).wf(),
            final(self).tokens() == old(self).tokens(),
            final(self).comma_rule() == old(self).comma_rule(),
            (final(self)@, found) == scan(
                old(self).tokens(),
                old(self)@,
                stop,
                old(self).comma_rule(),
            ),
    {
        let ghost tokens = self.tokens();
        let ghost rule = self.comma_rule();
        let ghost start = self@;
        loop
            invariant
                self.wf(),
                self.tokens() == tokens,
                self.comma_rule() == rule,
                scan(tokens, self@, stop, rule) == scan(tokens, start, stop, rule),
            decreases tokens.len() - self@.consumed,
        {
            if !self.next_token() {
                return false;
            }
            if self.last_token == stop {
                return true;
            }
        }
    }

    /// Consumes tokens, descending into every construct that one of them
    /// opens, until a token of kind `stop` has been consumed outside any
    /// such construct, and says whether one was found before the tokens ran
    /// out.
    #[verifier::loop_isolation(false)]
    pub fn parse_productions_up_to(&mut self, stop: TokenKind) -> (found: bool)
        requires
            old(self).wf(),
        ensures
            final(self).wf(),
            final(self).tokens() == old(self).tokens(),
            final(self).comma_rule() == old(self).comma_rule(),
            final(self)@ == run(
                old(self).tokens(),
                old(self)@,
                seq![until_scope(stop, old(self).comma_rule())],
            ).0,
            found == (run(
                old(self).tokens(),
                old(self)@,
                seq![until_scope(stop, old(self).comma_rule())],
            ).1.len() == 0),
        decreases old(self).tokens().len() - old(self)@.consumed, 1int,
    {
        let ghost tokens = self.tokens();
        let ghost rule = self.comma_rule();
        let ghost start = self@;
        let ghost scope = seq![until_scope(stop, rule)];
        loop
            invariant
                self.wf(),
                self.tokens() == tokens,
                self.comma_rule() == rule,
                self@.consumed >= start.consumed,
                scope == seq![until_scope(stop, rule)],
                run(tokens, self@, scope).0 == run(tokens, start, scope).0,
                (run(tokens, self@, scope).1.len() == 0) == (run(tokens, start, scope).1.len()
                    == 0),
            decreases tokens.len() - self@.consumed,
        {
            let ghost before = self@;
            if !self.next_token() {
                return false;
            }
            let ghost stepped = self@;
            if self.last_token == stop {
                proof {
                    let closed = scopes_after(scope, stepped.last_token);
                    assert(closed =~= Seq::<Scope>::empty());
                    assert(run(tokens, before, scope) == run(tokens, stepped, closed));
                    assert(run(tokens, stepped, closed) == (stepped, closed));
                }
                return true;
            }
            let ghost opened = opened_by(stepped.last_token, rule);
            self.parse_production();
            proof {
                assert(scopes_after(scope, stepped.last_token) == scope + opened);
                if opened.len() == 0 {
                    assert(scope + opened =~= scope);
                } else {
                    lemma_run_nested(tokens, stepped, scope, opened);
                    lemma_run_progress(tokens, stepped, opened);
                }
            }
        }
    }

    /// Formats a match once its keyword has been consumed: the head up to
    /// the `{`, in which no construct is recognised, and then the body up
    /// to its `}`, in which commas break lines. Says whether the match was
    /// closed before the tokens ran out.
    pub fn parse_match(&mut self) -> (complete: bool)
        requires
            old(self).wf(),
        ensures
            final(self).wf(),
            final(self).tokens() == old(self).tokens(),
            final(self).comma_rule() == old(self).comma_rule(),
            final(self)@ == run(
                old(self).tokens(),
                old(self)@,
                seq![head_scope(old(self).comma_rule())],
            ).0,
            complete == (run(
                old(self).tokens(),
                old(self)@,
                seq![head_scope(old(self).comma_rule())],
            ).1.len() == 0),
        decreases old(self).tokens().len() - old(self)@.consumed, 2int,
    {
        proof {
            lemma_run_head(self.tokens(), self@, self.comma_rule());
            lemma_scan_progress(self.tokens(), self@, TokenKind::LBrace, self.comma_rule());
        }
        if !self.parse_tokens_up_to(TokenKind::LBrace) {
            return false;
        }
        let old_newline_after_comma_setting = self.newline_after_comma;
        self.newline_after_comma = true;
        let complete = self.parse_productions_up_to(TokenKind::RBrace);
        self.newline_after_comma = old_newline_after_comma_setting;
        complete
    }

    /// Formats a brace block once its `{` has been consumed, up to its
    /// `}`: commas break lines. Says whether the block was closed before
    /// the tokens ran out.
    pub fn parse_braces(&mut self) -> (complete: bool)
        requires
            old(self).wf(),
        ensures
            final(self).wf(),
            final(self).tokens() == old(self).tokens(),
            final(self).comma_rule() == old(self).comma_rule(),
            final(self)@ == run(old(self).tokens(), old(self)@, seq![block_scope()]).0,
            complete == (run(old(self).tokens(), old(self)@, seq![block_scope()]).1.len() == 0),
        decreases old(self).tokens().len() - old(self)@.consumed, 2int,
    {
        let old_newline_after_comma_setting = self.newline_after_comma;
        self.newline_after_comma = true;
        let complete = self.parse_productions_up_to(TokenKind::RBrace);
        self.newline_after_comma = old_newline_after_comma_setting;
        complete
    }

    /// Formats a parenthesised group once its `(` has been consumed, up to
    /// its `)`: commas do not break lines. Says whether the group was
    /// closed before the tokens ran out.
    pub fn parse_parentheses(&mut self) -> (complete: bool)
        requires
            old(self).wf(),
        ensures
            final(self).wf(),
            final(self).tokens() == old(self).tokens(),
            final(self).comma_rule() == old(self).comma_rule(),
            final(self)@ == run(old(self).tokens(), old(self)@, seq![group_scope()]).0,
            complete == (run(old(self).tokens(), old(self)@, seq![group_scope()]).1.len() == 0),
        decreases old(self).tokens().len() - old(self)@.consumed, 2int,
    {
        let old_newline_after_comma_setting = self.newline_after_comma;
        self.newline_after_comma = false;
        let complete = self.parse_productions_up_to(TokenKind::RParen);
        self.newline_after_comma = old_newline_after_comma_setting;
        complete
    }

    /// Formats the construct that the token looked at last opens, up to its
    /// end, and says whether it was closed before the tokens ran out. Where
    /// that token opens nothing, nothing is consumed and the answer is
    /// `true`.
    pub fn parse_production(&mut self) -> (complete: bool)
        requires
            old(self).wf(),
        ensures
            final(self).wf(),
            final(self).tokens() == old(self).tokens(),
            final(self).comma_rule() == old(self).comma_rule(),
            final(self)@ == run(
                old(self).tokens(),
                old(self)@,
                opened_by(old(self)@.last_token, old(self).comma_rule()),
            ).0,
            complete == (run(
                old(self).tokens(),
                old(self)@,
                opened_by(old(self)@.last_token, old(self).comma_rule()),
            ).1.len() == 0),
        decreases old(self).tokens().len() - old(self)@.consumed, 3int,
    {
        let production_to_parse = match self.last_token {
            TokenKind::Match => ProductionToParse::MatchProduction,
            TokenKind::LBrace => ProductionToParse::BracesProduction,
            TokenKind::LParen => ProductionToParse::ParenthesesProduction,
            _ => {
                return true;
            },
        };
        match production_to_parse {
            ProductionToParse::MatchProduction => self.parse_match(),
            ProductionToParse::BracesProduction => self.parse_braces(),
            ProductionToParse::ParenthesesProduction => self.parse_parentheses(),
        }
    }

    /// Formats all the tokens that are left: consumes one token after the
    /// other and descends into every construct that one of them opens.
    ///
    /// A construct that is still open when the tokens run out ends the run
    /// like any other. The line in progress at that moment is not written.
    /// A run from the beginning ends in the last position of the trace.
    #[verifier::loop_isolation(false)]
    pub fn format(&mut self)
        requires
            old(self).wf(),
        ensures
            final(self).wf(),
            final(self).tokens() == old(self).tokens(),
            final(self).comma_rule() == old(self).comma_rule(),
            final(self)@ == run(
                old(self).tokens(),
                old(self)@,
                seq![top_scope(old(self).comma_rule())],
            ).0,
            old(self)@ == initial_state() && !old(self).comma_rule() ==> final(self)@ == state_at(
                old(self).tokens(),
                old(self).tokens().len() as int,
            ),
    {
        let ghost tokens = self.tokens();
        let ghost rule = self.comma_rule();
        let ghost start = self@;
        let ghost scope = seq![top_scope(rule)];
        proof {
            lemma_run_is_trace(tokens, 0);
        }
        loop
            invariant
                self.wf(),
                self.tokens() == tokens,
                self.comma_rule() == rule,
                scope == seq![top_scope(rule)],
                run(tokens, self@, scope).0 == run(tokens, start, scope).0,
            decreases tokens.len() - self@.consumed,
        {
            if !self.next_token() {
                return;
            }
            let ghost stepped = self@;
            let ghost opened = opened_by(stepped.last_token, rule);
            self.parse_production();
            proof {
                assert(scopes_after(scope, stepped.last_token) == scope + opened);
                if opened.len() == 0 {
                    assert(scope + opened =~= scope);
                } else {
                    lemma_run_nested(tokens, stepped, scope, opened);
                    lemma_run_progress(tokens, stepped, opened);
                }
            }
        }
    }
}

/// Formats `tokens` from the beginning and gives the text written, or
/// `None` where the tokens are too many or too long for the columns to be
/// counted in `i64`.
pub fn format_tokens(tokens: Vec<Token>) -> (text: Option<String>)
    ensures
        text is Some <==> within_limits(tokens@),
        text is Some ==> text.unwrap()@ == formatted(tokens@),
{
    if !fits(&tokens) {
        return None;
    }
    let mut formatter = Formatter::new(TokenStream::new(tokens));
    formatter.format();
    Some(formatter.into_output())
}

} // verus!
