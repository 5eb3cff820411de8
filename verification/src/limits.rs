//! The limits of the machine: how much input can be formatted with every
//! column and every indentation inside the range of `i64`.

use crate::logical_line::column;
use crate::token::Token;
use vstd::prelude::*;
use vstd::string::StrSliceExecFns;

verus! {

/// The columns that consuming one token can cost at most: its text, a
/// space, the step of indentation that it may take away before its line
/// and the step that it may add after it.
pub open spec fn token_cost(token: Token) -> int {
    token.width() as int + 9
}

/// The cost of the tokens from index `from` on.
pub open spec fn budget(tokens: Seq<Token>, from: int) -> int
    decreases tokens.len() - from,
{
    if from < 0 || from >= tokens.len() {
        0
    } else {
        token_cost(tokens[from]) + budget(tokens, from + 1)
    }
}

/// Whether `tokens` can be formatted with every column and every
/// indentation inside the range of `i64`.
pub open spec fn within_limits(tokens: Seq<Token>) -> bool {
    budget(tokens, 0) <= i64::MAX
}

/// The columns kept free for the first `n` tokens of a line in progress:
/// for each its text, a space, and the step of indentation that writing the
/// line may add.
pub(crate) open spec fn room(line: Seq<Token>, n: int) -> int
    decreases n,
{
    if n <= 0 {
        0
    } else {
        room(line, n - 1) + line[n - 1].width() + 5
    }
}

/// No stretch of tokens costs less than nothing.
pub proof fn lemma_budget_nonnegative(tokens: Seq<Token>, from: int)
    ensures
        budget(tokens, from) >= 0,
    decreases tokens.len() - from,
{
    if 0 <= from < tokens.len() {
        lemma_budget_nonnegative(tokens, from + 1);
    }
}

/// The more tokens are left, the more they cost: what fits from the
/// beginning fits from every position.
pub proof fn lemma_budget_grows(tokens: Seq<Token>, from: int, to: int)
    requires
        0 <= from <= to,
    ensures
        budget(tokens, from) >= budget(tokens, to),
    decreases to - from,
{
    lemma_budget_nonnegative(tokens, to);
    if from < to {
        lemma_budget_grows(tokens, from + 1, to);
        lemma_budget_nonnegative(tokens, from + 1);
    }
}

/// The room kept for a line holds the line, and for every token on it a
/// step of indentation.
pub(crate) proof fn lemma_extent_within_room(line: Seq<Token>, n: int)
    requires
        n <= line.len(),
    ensures
        column(line, 0, n) <= room(line, n),
        0 <= room(line, n),
        n > 0 ==> room(line, n) >= 5,
    decreases n,
{
    if n > 0 {
        lemma_extent_within_room(line, n - 1);
    }
}

/// A token appended to a line leaves the room of the tokens before it as
/// it was.
pub(crate) proof fn lemma_room_push(line: Seq<Token>, token: Token, n: int)
    requires
        n <= line.len(),
    ensures
        room(line.push(token), n) == room(line, n),
    decreases n,
{
    if n > 0 {
        lemma_room_push(line, token, n - 1);
    }
}

/// Whether `tokens` can be formatted with every column and every
/// indentation inside the range of `i64`.
pub fn fits(tokens: &Vec<Token>) -> (ok: bool)
    ensures
        ok == within_limits(tokens@),
{
    let mut total: u128 = 0;
    let mut i: usize = tokens.len();
    proof {
        lemma_budget_nonnegative(tokens@, 0);
    }
    while i > 0
        invariant
            i <= tokens.len(),
            total == budget(tokens@, i as int),
            total <= i64::MAX,
        decreases i,
    {
        i = i - 1;
        total = total + tokens[i].text.as_str().unicode_len() as u128 + 9;
        if total > i64::MAX as u128 {
            proof {
                lemma_budget_grows(tokens@, 0, i as int);
            }
            return false;
        }
    }
    true
}

} // verus!
