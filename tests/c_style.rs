use russet::{c_style_tokeniser, Error, LineTokeniser};

#[test]
fn c_style_c_style_unmatched_quote() {
    assert_eq!(c_style_tokeniser().line("\"abcde"), Err(Error::UnmatchedQuote));
}

#[test]
fn c_style_c_style_unfinished_escape() {
    assert_eq!(c_style_tokeniser().line("zxcvbn m\\"), Err(Error::UnfinishedEscape));
}

#[test]
fn c_style_c_style_empty_string() {
    assert_eq!(c_style_tokeniser().line(""), Ok(vec![]));
}

#[test]
fn c_style_c_style_leading_whitespace() {
    let rhs = vec!["abc".to_string(), "def".to_string()];
    assert_eq!(c_style_tokeniser().line("     abc def"), Ok(rhs));
}

#[test]
fn c_style_c_style_trailing_whitespace() {
    let rhs = vec!["ghi".to_string(), "jkl".to_string()];
    assert_eq!(c_style_tokeniser().line("ghi jkl     \n"), Ok(rhs));
}

#[test]
fn c_style_c_style_enqueue_command() {
    let lhs = "enqueue file \"C:\\\\Users\\\\Test\\\\Artist - Title.mp3\" 1";
    let rhs = vec![
        "enqueue".to_string(),
        "file".to_string(),
        "C:\\Users\\Test\\Artist - Title.mp3".to_string(),
        "1".to_string(),
    ];
    assert_eq!(c_style_tokeniser().line(lhs), Ok(rhs));
}

#[test]
fn c_style_c_style_escaped_newline() {
    assert_eq!(c_style_tokeniser().line("abc\\nde"), Ok(vec!["abc\nde".to_string()]));
    assert_eq!(c_style_tokeniser().line("\"abc\\nde\""), Ok(vec!["abc\nde".to_string()]));
}
