//! A configurable tokeniser that splits a line of text into words,
//! honouring quotation pairs and escape sequences.

pub mod char_table;
pub mod escape_scheme;
pub mod text;
pub mod tokeniser;
pub mod builders;
pub mod laws;
pub mod line;

pub use builders::{c_style_tokeniser, shell_style_tokeniser, whitespace_split_tokeniser};
pub use char_table::CharTable;
pub use escape_scheme::{c_escapes, EscapeScheme, SimpleEscapeScheme};
pub use escape_scheme::SimpleEscapeScheme::{LiteralEscape, MapEscape};
pub use line::LineTokeniser;
pub use tokeniser::{Error, QuoteMode, Tokeniser};
pub use tokeniser::QuoteMode::{IgnoreEscapes, ParseEscapes};
