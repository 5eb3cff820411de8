//! The core of a source-code pretty-printer.
//!
//! Given the tokens of a curly-brace language, the formatter groups them
//! into logical lines, decides the space between neighbouring tokens,
//! follows the nesting of match blocks, brace blocks and parenthesised
//! groups, and writes the lines out with their indentation.
//!
//! - [`token`]: tokens and the stream they are drawn from.
//! - [`line_token`]: the rules that depend on the kind of a token alone.
//! - [`logical_line`]: a line of output, its layout and its text.
//! - [`nesting`]: what the formatter does, as a machine with a stack of open
//!   constructs.
//! - [`formatter`]: the formatter itself, proved to do what the machine
//!   does.
//! - [`trace`]: a run from the first token, and what holds at every
//!   position of it.
//! - [`limits`]: how much input fits the range of the columns.
//!
//! [`format_tokens`] formats a whole sequence of tokens at once.

pub mod formatter;
pub mod limits;
pub mod line_token;
pub mod logical_line;
pub mod nesting;
pub mod token;
pub mod trace;

pub use formatter::{format_tokens, Formatter, ProductionToParse};
pub use limits::fits;
pub use line_token::{LineToken, TAB_WIDTH};
pub use logical_line::LogicalLine;
pub use token::{Token, TokenKind, TokenStream};
