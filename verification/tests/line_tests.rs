use dotenv_tool::line::{is_comment_or_blank, parse_env_line, read_line, Line};

fn pair(key: &str, value: &str) -> Option<(String, String)> {
    Some((key.to_string(), value.to_string()))
}

fn assignment(key: &str, value: &str) -> Line {
    Line::Assignment(key.to_string(), value.to_string())
}

#[test]
fn padded_line_gives_trimmed_key_and_value() {
    assert_eq!(parse_env_line("  K = V  "), pair("K", "V"));
    assert_eq!(parse_env_line("K=V"), pair("K", "V"));
    assert_eq!(parse_env_line("\tDB_HOST\t=\tlocalhost\r"), pair("DB_HOST", "localhost"));
    assert_eq!(parse_env_line("\u{a0}NAME \u{3000}=\u{2003}v\u{e4}rde "), pair("NAME", "v\u{e4}rde"));
}

#[test]
fn line_without_equals_gives_nothing() {
    assert_eq!(parse_env_line(""), None);
    assert_eq!(parse_env_line("   "), None);
    assert_eq!(parse_env_line("JUSTAKEY"), None);
    assert_eq!(parse_env_line("key: value"), None);
    assert_eq!(parse_env_line("# a comment"), None);
}

#[test]
fn splits_on_first_equals_only() {
    assert_eq!(parse_env_line("A=B=C"), pair("A", "B=C"));
    assert_eq!(parse_env_line("URL = http://h/?a=1&b=2 "), pair("URL", "http://h/?a=1&b=2"));
    assert_eq!(parse_env_line("A=="), pair("A", "="));
}

#[test]
fn key_and_value_are_taken_as_they_are() {
    assert_eq!(parse_env_line("=v"), pair("", "v"));
    assert_eq!(parse_env_line("k="), pair("k", ""));
    assert_eq!(parse_env_line("="), pair("", ""));
    assert_eq!(parse_env_line(" = "), pair("", ""));
    assert_eq!(parse_env_line("my key = my value"), pair("my key", "my value"));
    assert_eq!(parse_env_line("Q=\"hello\""), pair("Q", "\"hello\""));
    assert_eq!(parse_env_line("Q = 'it is' "), pair("Q", "'it is'"));
    assert_eq!(parse_env_line("#K=V"), pair("#K", "V"));
}

#[test]
fn comments_and_blank_lines_are_told_apart() {
    assert!(is_comment_or_blank(""));
    assert!(is_comment_or_blank("   "));
    assert!(is_comment_or_blank("\t\r"));
    assert!(is_comment_or_blank("# comment"));
    assert!(is_comment_or_blank("   # indented"));
    assert!(is_comment_or_blank("#A=1"));
    assert!(is_comment_or_blank("#"));
    assert!(!is_comment_or_blank("A=1"));
    assert!(!is_comment_or_blank("A=1 # trailing"));
    assert!(!is_comment_or_blank("=#"));
    assert!(!is_comment_or_blank("word"));
}

#[test]
fn read_line_names_each_kind() {
    assert_eq!(read_line(""), Line::Ignored);
    assert_eq!(read_line("  "), Line::Ignored);
    assert_eq!(read_line("# API_KEY=abc"), Line::Ignored);
    assert_eq!(read_line("API_KEY=abc"), assignment("API_KEY", "abc"));
    assert_eq!(read_line("  API_KEY = abc  "), assignment("API_KEY", "abc"));
    assert_eq!(read_line("A=B=C"), assignment("A", "B=C"));
    assert_eq!(read_line("A=#"), assignment("A", "#"));
    assert_eq!(read_line("no equals here"), Line::Malformed);
    assert_eq!(read_line("  x  "), Line::Malformed);
}
