//! Ready-made tokeniser configurations.
use vstd::prelude::*;
use crate::char_table::CharTable;
use crate::escape_scheme::{c_escape_map, c_escapes, SimpleEscapeScheme};
use crate::tokeniser::{QuoteMode, Tokeniser, TokeniserView};
pub use crate::line::LineTokeniser;

verus! {

/// Shell-style quotation: `"` pairs parse escapes, `'` pairs do not.
pub open spec fn shell_quote_map() -> Map<char, (char, QuoteMode)> {
    map!['"' => ('"', QuoteMode::ParseEscapes), '\'' => ('\'', QuoteMode::IgnoreEscapes)]
}

/// C-style quotation: `"` pairs, which parse escapes.
pub open spec fn c_quote_map() -> Map<char, (char, QuoteMode)> {
    map!['"' => ('"', QuoteMode::ParseEscapes)]
}

/// A tokeniser with no quoting or escaping: it splits on whitespace alone.
pub fn whitespace_split_tokeniser() -> (r: Tokeniser)
    ensures
        r@ == TokeniserView::fresh(Map::empty(), Map::empty()),
        r@.well_formed(),
{
    let quote_map: CharTable<(char, QuoteMode)> = CharTable::new();
    let escape_map: CharTable<SimpleEscapeScheme> = CharTable::new();
    Tokeniser::new(quote_map, escape_map)
}

/// A tokeniser with shell-style quoting: `"` and `'` delimit words, a
/// backslash makes the next character stand for itself, and nothing inside
/// single quotes is special but the closing quote.
pub fn shell_style_tokeniser() -> (r: Tokeniser)
    ensures
        r@ == TokeniserView::fresh(
            shell_quote_map(),
            map!['\\' => SimpleEscapeScheme::LiteralEscape],
        ),
        r@.well_formed(),
{
    let mut quote_map: CharTable<(char, QuoteMode)> = CharTable::new();
    quote_map.insert('"', ('"', QuoteMode::ParseEscapes));
    quote_map.insert('\'', ('\'', QuoteMode::IgnoreEscapes));
    let mut escape_map: CharTable<SimpleEscapeScheme> = CharTable::new();
    escape_map.insert('\\', SimpleEscapeScheme::LiteralEscape);
    let r = Tokeniser::new(quote_map, escape_map);
    assert(r@.quote_pairs =~= shell_quote_map());
    assert(r@.escapes =~= map!['\\' => SimpleEscapeScheme::LiteralEscape]);
    r
}

/// A tokeniser with C-style quoting: `"` delimits words, and a backslash
/// introduces one of the C escapes of `c_escapes`.
pub fn c_style_tokeniser() -> (r: Tokeniser)
    ensures
        r@ == TokeniserView::fresh(c_quote_map(), r@.escapes),
        r@.escapes.dom() == set!['\\'],
        r@.escapes['\\'] is MapEscape,
        r@.escapes['\\']->MapEscape_0@ == c_escape_map(),
        r@.well_formed(),
{
    let mut quote_map: CharTable<(char, QuoteMode)> = CharTable::new();
    quote_map.insert('"', ('"', QuoteMode::ParseEscapes));
    let mut escape_map: CharTable<SimpleEscapeScheme> = CharTable::new();
    escape_map.insert('\\', c_escapes());
    let r = Tokeniser::new(quote_map, escape_map);
    assert(r@.quote_pairs =~= c_quote_map());
    assert(r@.escapes.dom() =~= set!['\\']);
    r
}

} // verus!
