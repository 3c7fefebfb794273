//! Escape schemes: what the character after an escape leader stands for.
use vstd::prelude::*;
use crate::char_table::CharTable;

verus! {

/// An escaping scheme.
///
/// A tokeniser maps each escape leader to a scheme, which decides what the
/// character following that leader resolves to.
pub trait EscapeScheme {
    /// The literal that `chr` stands for after a leader, or `None` when `chr`
    /// is no escape of this scheme.
    spec fn resolves_to(&self, chr: char) -> Option<char>;

    /// Maps an escaped character `chr` to its literal substitute, if any.
    fn escape(&self, chr: char) -> (r: Option<char>)
        ensures
            r == self.resolves_to(chr),
    ;
}

/// The built-in escape schemes.
#[derive(Clone, Debug)]
pub enum SimpleEscapeScheme {
    /// Any character after the leader stands for itself (shell style).
    LiteralEscape,
    /// A character after the leader is looked up in the table; characters
    /// that the table lacks are no escape.
    MapEscape(CharTable<char>),
}

impl SimpleEscapeScheme {
    /// What `chr` resolves to under this scheme.
    pub open spec fn resolve(&self, chr: char) -> Option<char> {
        match self {
            SimpleEscapeScheme::LiteralEscape => Some(chr),
            SimpleEscapeScheme::MapEscape(table) => table.lookup(chr),
        }
    }
}

impl EscapeScheme for SimpleEscapeScheme {
    open spec fn resolves_to(&self, chr: char) -> Option<char> {
        self.resolve(chr)
    }

    fn escape(&self, chr: char) -> (r: Option<char>) {
        match self {
            SimpleEscapeScheme::LiteralEscape => Some(chr),
            SimpleEscapeScheme::MapEscape(table) => match table.get(chr) {
                Some(c) => Some(*c),
                None => None,
            },
        }
    }
}

/// The C escape table: `n`, `r` and `t` stand for newline, carriage return
/// and tab; the quotes and the backslash stand for themselves.
pub open spec fn c_escape_map() -> Map<char, char> {
    map!['n' => '\n', 'r' => '\r', '"' => '"', '\'' => '\'', '\\' => '\\', 't' => '\t']
}

/// A C-style escape scheme.
pub fn c_escapes() -> (r: SimpleEscapeScheme)
    ensures
        r is MapEscape,
        r->MapEscape_0@ == c_escape_map(),
{
    let mut table: CharTable<char> = CharTable::new();
    table.insert('n', '\n');
    table.insert('r', '\r');
    table.insert('"', '"');
    table.insert('\'', '\'');
    table.insert('\\', '\\');
    table.insert('t', '\t');
    assert(table@ =~= c_escape_map());
    SimpleEscapeScheme::MapEscape(table)
}

} // verus!
