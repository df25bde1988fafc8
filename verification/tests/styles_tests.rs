use dotenv_tool::styles::{
    style_italic, style_key, style_note, style_prompt, style_value, ITALIC_STYLE, KEY_STYLE,
    NOTE_STYLE, PROMPT_STYLE, RESET_STYLE, VALUE_STYLE,
};

#[test]
fn codes_are_the_escape_sequences() {
    assert_eq!(PROMPT_STYLE, "\u{1b}[90m");
    assert_eq!(ITALIC_STYLE, "\u{1b}[3m");
    assert_eq!(NOTE_STYLE, "\u{1b}[90;3m");
    assert_eq!(KEY_STYLE, "\u{1b}[1;34m");
    assert_eq!(VALUE_STYLE, "\u{1b}[1;3;32m");
    assert_eq!(RESET_STYLE, "\u{1b}[0m");
}

#[test]
fn prompt_is_grey() {
    assert_eq!(style_prompt("Enter:"), "\u{1b}[90mEnter:\u{1b}[0m");
}

#[test]
fn note_is_grey_italic() {
    assert_eq!(style_note("from .env"), "\u{1b}[90;3mfrom .env\u{1b}[0m");
}

#[test]
fn key_is_bold_blue() {
    assert_eq!(style_key("API_KEY"), "\u{1b}[1;34mAPI_KEY\u{1b}[0m");
}

#[test]
fn value_is_bold_green_italic() {
    assert_eq!(style_value("abc"), "\u{1b}[1;3;32mabc\u{1b}[0m");
}

#[test]
fn italic_is_italic() {
    assert_eq!(style_italic("./cfg/.env"), "\u{1b}[3m./cfg/.env\u{1b}[0m");
}

#[test]
fn empty_text_is_still_wrapped() {
    assert_eq!(style_key(""), "\u{1b}[1;34m\u{1b}[0m");
    assert_eq!(style_italic(""), "\u{1b}[3m\u{1b}[0m");
}
