use russet::{shell_style_tokeniser, Error, LineTokeniser};

#[test]
fn shell_style_unmatched_single_quote() {
    assert_eq!(shell_style_tokeniser().line("\'abcde"), Err(Error::UnmatchedQuote));
}

#[test]
fn shell_style_unmatched_double_quote() {
    assert_eq!(shell_style_tokeniser().line("\"abcde"), Err(Error::UnmatchedQuote));
}

#[test]
fn shell_style_unfinished_escape() {
    assert_eq!(shell_style_tokeniser().line("zxcvbn m\\"), Err(Error::UnfinishedEscape));
}

#[test]
fn shell_style_empty_string() {
    assert_eq!(shell_style_tokeniser().line(""), Ok(vec![]));
}

#[test]
fn shell_style_leading_whitespace() {
    let rhs = vec!["abc".to_string(), "def".to_string()];
    assert_eq!(shell_style_tokeniser().line("     abc def"), Ok(rhs));
}

#[test]
fn shell_style_trailing_whitespace() {
    let rhs = vec!["ghi".to_string(), "jkl".to_string()];
    assert_eq!(shell_style_tokeniser().line("ghi jkl     \n"), Ok(rhs));
}

#[test]
fn shell_style_enqueue_command_double_quotes() {
    let lhs = "enqueue file \"C:\\\\Users\\\\Test\\\\Artist - Title.mp3\" 1";
    let rhs = vec![
        "enqueue".to_string(),
        "file".to_string(),
        "C:\\Users\\Test\\Artist - Title.mp3".to_string(),
        "1".to_string(),
    ];
    assert_eq!(shell_style_tokeniser().line(lhs), Ok(rhs));
}

#[test]
fn shell_style_enqueue_command_single_quotes() {
    let lhs = "enqueue file \'C:\\Users\\Test\\Artist - Title.mp3\' 1";
    let rhs = vec![
        "enqueue".to_string(),
        "file".to_string(),
        "C:\\Users\\Test\\Artist - Title.mp3".to_string(),
        "1".to_string(),
    ];
    assert_eq!(shell_style_tokeniser().line(lhs), Ok(rhs));
}

#[test]
fn shell_style_escaped_newline() {
    // Unquoted backslash-escape
    assert_eq!(shell_style_tokeniser().line("abc\\\nde"), Ok(vec!["abc\nde".to_string()]));
    // Double-quoted backslash-escape
    assert_eq!(shell_style_tokeniser().line("\"abc\\\nde\""), Ok(vec!["abc\nde".to_string()]));
    // Double-quoted implicit-escape
    assert_eq!(shell_style_tokeniser().line("\"abc\nde\""), Ok(vec!["abc\nde".to_string()]));
    // Single-quoted implicit-escape
    assert_eq!(shell_style_tokeniser().line("\'abc\nde\'"), Ok(vec!["abc\nde".to_string()]));
    // But single-quoted backslash-escape shouldn't work
    assert_eq!(shell_style_tokeniser().line("\'abc\\\nde\'"), Ok(vec!["abc\\\nde".to_string()]));
}
