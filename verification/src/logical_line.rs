//! A logical line: the tokens of one line of output, their layout, and the
//! text the line is written as.

use crate::line_token::{space_between, LineToken, TAB_WIDTH};
use crate::token::{Token, TokenKind};
use vstd::prelude::*;
use vstd::string::StringExecFns;

verus! {

/// The tokens of a line, without their columns.
pub open spec fn tokens_of(line: Seq<LineToken>) -> Seq<Token> {
    line.map_values(|line_token: LineToken| line_token.token)
}

/// The number of spaces between token `i` of a line and the token after
/// it: 1 where the two need a space, else 0, and 0 after the last token.
pub open spec fn gap(tokens: Seq<Token>, i: int) -> int {
    if 0 <= i && i + 1 < tokens.len() && space_between(tokens[i].kind, tokens[i + 1].kind) {
        1
    } else {
        0
    }
}

/// The column of token `i` of a line whose first token stands at column
/// `start`: every token before it takes its width and its gap.
pub open spec fn column(tokens: Seq<Token>, start: int, i: int) -> int
    decreases i,
{
    if i <= 0 {
        start
    } else {
        column(tokens, start, i - 1) + tokens[i - 1].width() + gap(tokens, i - 1)
    }
}

/// The number of columns from the start of a line to the end of its last
/// token.
pub open spec fn extent(tokens: Seq<Token>) -> int {
    column(tokens, 0, tokens.len() as int)
}

/// Every token of the line stands at the column that the layout from
/// `start` gives it.
pub open spec fn placed_at(line: Seq<LineToken>, start: int) -> bool {
    forall|i: int|
        0 <= i < line.len() ==> (#[trigger] line[i]).x_pos == column(tokens_of(line), start, i)
}

/// The change of indentation that a line asks for once it is written: one
/// step where it ends in `{`.
pub open spec fn postindentation(tokens: Seq<Token>) -> int {
    if tokens.len() > 0 && tokens.last().kind is LBrace {
        TAB_WIDTH as int
    } else {
        0
    }
}

/// `n` spaces; none where `n` is negative.
pub open spec fn spaces(n: int) -> Seq<char> {
    Seq::new(
        if n > 0 {
            n as nat
        } else {
            0
        },
        |i: int| ' ',
    )
}

/// The text of the first `n` tokens of a line, each followed by its gap.
pub open spec fn body_text(tokens: Seq<Token>, n: int) -> Seq<char>
    decreases n,
{
    if n <= 0 {
        Seq::empty()
    } else {
        body_text(tokens, n - 1) + tokens[n - 1].text@ + spaces(gap(tokens, n - 1))
    }
}

/// The text a line is written as at a given indentation: the indentation,
/// the tokens with their gaps, and a line feed.
pub open spec fn line_text(tokens: Seq<Token>, indent: int) -> Seq<char> {
    spaces(indent) + body_text(tokens, tokens.len() as int) + seq!['\n']
}

/// The distance from the end of token `i` of a line to the start of the
/// token after it, as the columns of the two say; 0 for the last token and
/// beyond.
pub open spec fn distance_after(line: Seq<LineToken>, i: int) -> int {
    if 0 <= i && i + 1 < line.len() {
        line[i + 1].x_pos - (line[i].x_pos + line[i].token.width())
    } else {
        0
    }
}

/// The text of the first `n` tokens of a line, each followed by as many
/// spaces as its columns leave before the next token.
pub open spec fn written_body(line: Seq<LineToken>, n: int) -> Seq<char>
    decreases n,
{
    if n <= 0 {
        Seq::empty()
    } else {
        written_body(line, n - 1) + line[n - 1].token.text@ + spaces(distance_after(line, n - 1))
    }
}

/// The text that writing a line at a given indentation adds to the output,
/// read off the columns that the tokens have.
pub open spec fn written_text(line: Seq<LineToken>, indent: int) -> Seq<char> {
    spaces(indent) + written_body(line, line.len() as int) + seq!['\n']
}

/// Columns count from `start`: moving the start moves every column alike.
pub proof fn lemma_column_shift(tokens: Seq<Token>, start: int, i: int)
    ensures
        column(tokens, start, i) == start + column(tokens, 0, i),
    decreases i,
{
    if i > 0 {
        lemma_column_shift(tokens, start, i - 1);
    }
}

/// Columns never shrink along the line.
pub proof fn lemma_column_grows(tokens: Seq<Token>, start: int, i: int, j: int)
    requires
        i <= j,
    ensures
        column(tokens, start, i) <= column(tokens, start, j),
    decreases j - i,
{
    if i < j {
        lemma_column_grows(tokens, start, i, j - 1);
    }
}

/// On a line that has been laid out, the distance from the end of a token
/// to the start of the next is that token's gap: no column or one.
pub proof fn lemma_gap_after_layout(line: Seq<LineToken>, start: int, i: int)
    requires
        placed_at(line, start),
    ensures
        distance_after(line, i) == gap(tokens_of(line), i),
        distance_after(line, i) == 0 || distance_after(line, i) == 1,
{
    if 0 <= i && i + 1 < line.len() {
        assert(line[i + 1].x_pos == column(tokens_of(line), start, i + 1));
        assert(line[i].x_pos == column(tokens_of(line), start, i));
        assert(tokens_of(line)[i] == line[i].token);
    }
}

/// On a line that has been laid out, the spaces that the columns leave are
/// the gaps of the tokens.
proof fn lemma_written_body_after_layout(line: Seq<LineToken>, start: int, n: int)
    requires
        placed_at(line, start),
        n <= line.len(),
    ensures
        written_body(line, n) == body_text(tokens_of(line), n),
    decreases n,
{
    if n > 0 {
        lemma_written_body_after_layout(line, start, n - 1);
        lemma_gap_after_layout(line, start, n - 1);
        assert(tokens_of(line)[n - 1] == line[n - 1].token);
    }
}

/// A line that has been laid out from the column of its indentation is
/// written as its tokens alone say: with one space wherever two neighbours
/// need one, and no other.
pub proof fn lemma_written_text_after_layout(line: Seq<LineToken>, indent: int)
    requires
        placed_at(line, indent),
    ensures
        written_text(line, indent) == line_text(tokens_of(line), indent),
{
    lemma_written_body_after_layout(line, indent, line.len() as int);
}

/// An ordered buffer of tokens that are written on one line.
pub struct LogicalLine {
    tokens: Vec<LineToken>,
}

impl View for LogicalLine {
    type V = Seq<LineToken>;

    closed spec fn view(&self) -> Seq<LineToken> {
        self.tokens@
    }
}

impl LogicalLine {
    /// An empty line.
    pub fn new() -> (line: LogicalLine)
        ensures
            line@ == Seq::<LineToken>::empty(),
    {
        LogicalLine { tokens: Vec::new() }
    }

    /// The number of tokens on the line.
    pub fn len(&self) -> (n: usize)
        ensures
            n == self@.len(),
    {
        self.tokens.len()
    }

    /// The token at `index`, if the line has that many.
    pub fn get(&self, index: usize) -> (line_token: Option<&LineToken>)
        ensures
            index < self@.len() ==> line_token == Some(&self@[index as int]),
            index >= self@.len() ==> line_token is None,
    {
        if index < self.tokens.len() {
            Some(&self.tokens[index])
        } else {
            None
        }
    }

    /// Appends a token to the line.
    pub fn push(&mut self, line_token: LineToken)
        ensures
            final(self)@ == old(self)@.push(line_token),
    {
        self.tokens.push(line_token);
    }

    /// Whether the line can be laid out from column `x_pos` with every
    /// column inside the range of `i64`.
    pub fn fits(&self, x_pos: i64) -> (ok: bool)
        ensures
            ok == (x_pos + extent(tokens_of(self@)) <= i64::MAX),
    {
        let n = self.tokens.len();
        let ghost tokens = tokens_of(self@);
        let mut end: i128 = x_pos as i128;
        let mut i: usize = 0;
        while i < n
            invariant
                n == self@.len(),
                i <= n,
                tokens == tokens_of(self@),
                end == x_pos + column(tokens, 0, i as int),
                end <= i64::MAX,
            decreases n - i,
        {
            proof {
                assert(tokens[i as int] == self@[i as int].token);
                if i + 1 < n {
                    assert(tokens[i as int + 1] == self@[i as int + 1].token);
                }
            }
            end = end + self.tokens[i].length() as i128;
            if i + 1 < n && self.tokens[i].whitespace_needed_after(&self.tokens[i + 1]) {
                end = end + 1;
            }
            i = i + 1;
            if end > i64::MAX as i128 {
                proof {
                    lemma_column_grows(tokens, 0, i as int, n as int);
                }
                return false;
            }
        }
        true
    }

    /// Gives every token its column, from left to right, the first one at
    /// `x_pos`. The tokens themselves stay as they are. The columns must
    /// fit in `i64`: see [`LogicalLine::fits`].
    pub fn layout(&mut self, x_pos: i64)
        requires
            x_pos + extent(tokens_of(old(self)@)) <= i64::MAX,
        ensures
            tokens_of(final(self)@) == tokens_of(old(self)@),
            placed_at(final(self)@, x_pos as int),
    {
        let n = self.tokens.len();
        let ghost tokens = tokens_of(self@);
        let mut x: i64 = x_pos;
        let mut i: usize = 0;
        while i < n
            invariant
                n == self.tokens.len(),
                i <= n,
                tokens_of(self@) =~= tokens,
                tokens.len() == n,
                x == column(tokens, x_pos as int, i as int),
                forall|j: int|
                    0 <= j < i ==> (#[trigger] self@[j]).x_pos == column(tokens, x_pos as int, j),
                x_pos + extent(tokens) <= i64::MAX,
            decreases n - i,
        {
            proof {
                lemma_column_grows(tokens, x_pos as int, i as int + 1, n as int);
                lemma_column_shift(tokens, x_pos as int, n as int);
                lemma_column_grows(tokens, x_pos as int, 0, i as int);
                assert(tokens[i as int] == self@[i as int].token);
                if i + 1 < n {
                    assert(tokens[i as int + 1] == self@[i as int + 1].token);
                }
            }
            self.tokens[i].x_pos = x;
            let width = self.tokens[i].length();
            let mut next: i128 = x as i128 + width as i128;
            if i + 1 < n && self.tokens[i].whitespace_needed_after(&self.tokens[i + 1]) {
                next = next + 1;
            }
            x = next as i64;
            i = i + 1;
        }
    }

    /// The number of spaces between the token at `index` and the one after
    /// it, as the columns of the two say; 0 for the last token and beyond.
    /// On a line that has been laid out this is 0 or 1.
    pub fn whitespace_after(&self, index: usize) -> (columns: i64)
        requires
            i64::MIN <= distance_after(self@, index as int) <= i64::MAX,
        ensures
            columns == distance_after(self@, index as int),
            forall|start: int|
                placed_at(self@, start) ==> columns == gap(tokens_of(self@), index as int) && 0
                    <= columns <= 1,
    {
        proof {
            assert forall|start: int| placed_at(self@, start) implies distance_after(
                self@,
                index as int,
            ) == gap(tokens_of(self@), index as int) by {
                lemma_gap_after_layout(self@, start, index as int);
            }
        }
        if self.tokens.len() <= 1 || index >= self.tokens.len() - 1 {
            return 0;
        }
        let here = self.tokens[index].x_pos as i128 + self.tokens[index].length() as i128;
        (self.tokens[index + 1].x_pos as i128 - here) as i64
    }

    /// Writes the line to the end of `output`: `indent` spaces, each token
    /// followed by the spaces that its columns leave before the next, and a
    /// line feed.
    pub fn write_to(&self, indent: i64, output: &mut String)
        requires
            forall|i: int|
                0 <= i < self@.len() ==> i64::MIN <= #[trigger] distance_after(self@, i)
                    <= i64::MAX,
        ensures
            final(output)@ == old(output)@ + written_text(self@, indent as int),
    {
        let ghost start = output@;
        proof {
            reveal_strlit(" ");
            reveal_strlit("\n");
        }
        let mut column: i64 = 0;
        while column < indent
            invariant
                0 <= column,
                column <= indent || column == 0,
                output@ == start + spaces(column as int),
                " "@ == seq![' '],
            decreases indent - column,
        {
            output.append(" ");
            column = column + 1;
            assert(output@ =~= start + spaces(column as int));
        }
        assert(spaces(column as int) =~= spaces(indent as int));
        let n = self.tokens.len();
        let mut i: usize = 0;
        while i < n
            invariant
                i <= n,
                n == self@.len(),
                forall|i: int|
                    0 <= i < self@.len() ==> i64::MIN <= #[trigger] distance_after(self@, i)
                        <= i64::MAX,
                output@ == start + spaces(indent as int) + written_body(self@, i as int),
                " "@ == seq![' '],
            decreases n - i,
        {
            let ghost before = output@;
            output.append(self.tokens[i].token.text.as_str());
            let gap_width = self.whitespace_after(i);
            let mut j: i64 = 0;
            while j < gap_width
                invariant
                    0 <= j,
                    j <= gap_width || j == 0,
                    i < self@.len(),
                    output@ == before + self@[i as int].token.text@ + spaces(j as int),
                    " "@ == seq![' '],
                decreases gap_width - j,
            {
                output.append(" ");
                j = j + 1;
                assert(output@ =~= before + self@[i as int].token.text@ + spaces(j as int));
            }
            assert(spaces(j as int) =~= spaces(gap_width as int));
            assert(output@ =~= start + spaces(indent as int) + written_body(self@, i as int + 1));
            i = i + 1;
        }
        output.append("\n");
        assert(output@ =~= start + written_text(self@, indent as int));
    }

    /// The change of indentation to make once the line is written.
    pub fn postindentation(&self) -> (delta: i64)
        ensures
            delta == postindentation(tokens_of(self@)),
    {
        let n = self.tokens.len();
        if n == 0 {
            0
        } else {
            match self.tokens[n - 1].token.kind {
                TokenKind::LBrace => TAB_WIDTH,
                _ => 0,
            }
        }
    }
}

} // verus!
