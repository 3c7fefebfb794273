use russet::{
    c_escapes, c_style_tokeniser, shell_style_tokeniser, whitespace_split_tokeniser, CharTable,
    Error, EscapeScheme, LineTokeniser, QuoteMode, SimpleEscapeScheme, Tokeniser,
};

fn words(ws: &[&str]) -> Vec<String> {
    ws.iter().map(|w| w.to_string()).collect()
}

#[test]
fn whitespace_split_matches_split_whitespace() {
    let inputs = [
        "this \"ignores quotes\"  and\n  \\slashes",
        "  a\tb\r\nc  ",
        "one",
        "x\u{3000}y\u{a0}z",
    ];
    for input in inputs.iter() {
        let expected: Vec<String> = input.split_whitespace().map(|w| w.to_string()).collect();
        assert_eq!(whitespace_split_tokeniser().line(input), Ok(expected));
    }
}

#[test]
fn plain_input_splits_on_whitespace_in_every_style() {
    let input = "  alpha beta\t gamma  ";
    let expected = words(&["alpha", "beta", "gamma"]);
    assert_eq!(shell_style_tokeniser().line(input), Ok(expected.clone()));
    assert_eq!(c_style_tokeniser().line(input), Ok(expected.clone()));
    assert_eq!(whitespace_split_tokeniser().line(input), Ok(expected));
}

#[test]
fn rejoined_words_tokenise_the_same() {
    let first = shell_style_tokeniser().line(" ls  -l\t/tmp  ").unwrap();
    assert_eq!(first, words(&["ls", "-l", "/tmp"]));
    let again = shell_style_tokeniser().line(&first.join(" ")).unwrap();
    assert_eq!(again, first);
}

#[test]
fn unmatched_quote_after_words() {
    assert_eq!(shell_style_tokeniser().line("a b\\\" 'c d"), Err(Error::UnmatchedQuote));
    assert_eq!(c_style_tokeniser().line("done \"open"), Err(Error::UnmatchedQuote));
}

#[test]
fn open_quote_wins_over_pending_escape_at_end() {
    assert_eq!(shell_style_tokeniser().line("\"abc\\"), Err(Error::UnmatchedQuote));
}

#[test]
fn trailing_leader_after_quoted_word() {
    assert_eq!(shell_style_tokeniser().line("'x' \\"), Err(Error::UnfinishedEscape));
}

#[test]
fn blank_input_yields_no_words() {
    assert_eq!(shell_style_tokeniser().line(" \t\n "), Ok(vec![]));
    assert_eq!(c_style_tokeniser().line("\u{2003}"), Ok(vec![]));
    assert_eq!(whitespace_split_tokeniser().line(""), Ok(vec![]));
}

#[test]
fn empty_quotes_make_an_empty_word() {
    assert_eq!(shell_style_tokeniser().line("a \"\" b"), Ok(words(&["a", "", "b"])));
    // A last word that is empty is dropped when finishing, quoted or not.
    assert_eq!(shell_style_tokeniser().line("''"), Ok(vec![]));
    assert_eq!(shell_style_tokeniser().line("a ''"), Ok(words(&["a"])));
}

#[test]
fn quotes_join_adjacent_text() {
    assert_eq!(shell_style_tokeniser().line("ab\"c d\"e"), Ok(words(&["abc de"])));
}

#[test]
fn escaped_space_stays_in_word() {
    let expected = words(&["word1", "word 2", "word 3", "word\\ \"4\""]);
    assert_eq!(
        shell_style_tokeniser().line("word1 word\\ 2 \"word\\ 3\" 'word\\ \"4\"'"),
        Ok(expected)
    );
}

#[test]
fn escaped_quote_is_literal() {
    assert_eq!(shell_style_tokeniser().line("\\\"a"), Ok(words(&["\"a"])));
}

#[test]
fn c_style_escapes_resolve() {
    assert_eq!(
        c_style_tokeniser().line("word1\nword\\n2 \"word\n3\" \"word\\t4\\r\""),
        Ok(words(&["word1", "word\n2", "word\n3", "word\t4\r"]))
    );
}

#[test]
fn c_style_unknown_escape_is_literal() {
    assert_eq!(c_style_tokeniser().line("a\\qb"), Ok(words(&["aqb"])));
}

#[test]
fn c_escapes_table() {
    let scheme = c_escapes();
    assert_eq!(scheme.escape('n'), Some('\n'));
    assert_eq!(scheme.escape('r'), Some('\r'));
    assert_eq!(scheme.escape('t'), Some('\t'));
    assert_eq!(scheme.escape('\\'), Some('\\'));
    assert_eq!(scheme.escape('"'), Some('"'));
    assert_eq!(scheme.escape('\''), Some('\''));
    assert_eq!(scheme.escape('x'), None);
}

#[test]
fn literal_escape_keeps_character() {
    let scheme = SimpleEscapeScheme::LiteralEscape;
    assert_eq!(scheme.escape('\n'), Some('\n'));
    assert_eq!(scheme.escape('z'), Some('z'));
}

#[test]
fn char_table_insert_replaces() {
    let mut table: CharTable<u8> = CharTable::new();
    assert!(!table.contains_key('a'));
    table.insert('a', 1);
    table.insert('b', 2);
    table.insert('a', 3);
    assert_eq!(table.get('a'), Some(&3));
    assert_eq!(table.get('b'), Some(&2));
    assert_eq!(table.get('c'), None);
}

#[test]
fn add_char_builds_words() {
    let tok = whitespace_split_tokeniser();
    let tok = tok.add_char('a').add_char('b').add_char(' ').add_char('c');
    assert_eq!(tok.into_strings(), Ok(words(&["ab", "c"])));
}

#[test]
fn add_iterator_feeds_every_character() {
    let tok = shell_style_tokeniser().add_iterator(" x  'y z' ".chars());
    assert_eq!(tok.into_strings(), Ok(words(&["x", "y z"])));
}

#[test]
fn lines_continue_an_unfinished_state() {
    let tok = shell_style_tokeniser().add_line("say 'hello");
    let tok = tok.add_char('\n').add_line("world'");
    assert_eq!(tok.into_strings(), Ok(words(&["say", "hello\nworld"])));
}

#[test]
fn custom_configuration() {
    let mut quotes: CharTable<(char, QuoteMode)> = CharTable::new();
    quotes.insert('[', (']', QuoteMode::IgnoreEscapes));
    let mut table: CharTable<char> = CharTable::new();
    table.insert('s', ' ');
    let mut escapes: CharTable<SimpleEscapeScheme> = CharTable::new();
    escapes.insert('%', SimpleEscapeScheme::MapEscape(table));
    let tok = Tokeniser::new(quotes, escapes);
    assert_eq!(tok.line("a%sb [c %s d] e%"), Err(Error::UnfinishedEscape));
    let tok = Tokeniser::new(CharTable::new(), CharTable::new());
    assert_eq!(tok.line("[a b]"), Ok(words(&["[a", "b]"])));
}

#[test]
fn custom_configuration_words() {
    let mut quotes: CharTable<(char, QuoteMode)> = CharTable::new();
    quotes.insert('[', (']', QuoteMode::IgnoreEscapes));
    let mut table: CharTable<char> = CharTable::new();
    table.insert('s', ' ');
    let mut escapes: CharTable<SimpleEscapeScheme> = CharTable::new();
    escapes.insert('%', SimpleEscapeScheme::MapEscape(table));
    let tok = Tokeniser::new(quotes, escapes);
    assert_eq!(tok.line("a%sb [c %s d] e%x"), Ok(words(&["a b", "c %s d", "ex"])));
}
