//! Terminal styles: the escape codes, and text wrapped in them.

use vstd::prelude::*;
use vstd::string::*;

verus! {

/// Grey text.
pub const PROMPT_STYLE: &'static str = "\x1b[90m";

/// Italic text.
pub const ITALIC_STYLE: &'static str = "\x1b[3m";

/// Dark grey, italic text.
pub const NOTE_STYLE: &'static str = "\x1b[90;3m";

/// Blue, bold text.
pub const KEY_STYLE: &'static str = "\x1b[1;34m";

/// Green, bold, italic text.
pub const VALUE_STYLE: &'static str = "\x1b[1;3;32m";

/// Back to the terminal's own style.
pub const RESET_STYLE: &'static str = "\x1b[0m";

/// `text` in a style: the style's code, the text, and the code that ends it.
pub open spec fn styled(style: Seq<char>, text: Seq<char>) -> Seq<char> {
    style + text + RESET_STYLE@
}

/// The characters of each code.
pub proof fn lemma_style_codes()
    ensures
        PROMPT_STYLE@ == seq!['\x1b', '[', '9', '0', 'm'],
        ITALIC_STYLE@ == seq!['\x1b', '[', '3', 'm'],
        NOTE_STYLE@ == seq!['\x1b', '[', '9', '0', ';', '3', 'm'],
        KEY_STYLE@ == seq!['\x1b', '[', '1', ';', '3', '4', 'm'],
        VALUE_STYLE@ == seq!['\x1b', '[', '1', ';', '3', ';', '3', '2', 'm'],
        RESET_STYLE@ == seq!['\x1b', '[', '0', 'm'],
{
    reveal_strlit("\x1b[90m");
    reveal_strlit("\x1b[3m");
    reveal_strlit("\x1b[90;3m");
    reveal_strlit("\x1b[1;34m");
    reveal_strlit("\x1b[1;3;32m");
    reveal_strlit("\x1b[0m");
    assert(PROMPT_STYLE@ =~= seq!['\x1b', '[', '9', '0', 'm']);
    assert(ITALIC_STYLE@ =~= seq!['\x1b', '[', '3', 'm']);
    assert(NOTE_STYLE@ =~= seq!['\x1b', '[', '9', '0', ';', '3', 'm']);
    assert(KEY_STYLE@ =~= seq!['\x1b', '[', '1', ';', '3', '4', 'm']);
    assert(VALUE_STYLE@ =~= seq!['\x1b', '[', '1', ';', '3', ';', '3', '2', 'm']);
    assert(RESET_STYLE@ =~= seq!['\x1b', '[', '0', 'm']);
}

/// `text` between `style` and the reset code.
fn wrap(style: &str, text: &str) -> (out: String)
    ensures
        out@ == styled(style@, text@),
{
    let mut out = String::from_str(style);
    out.append(text);
    out.append(RESET_STYLE);
    out
}

/// `prompt_string` in grey.
pub fn style_prompt(prompt_string: &str) -> (out: String)
    ensures
        out@ == styled(PROMPT_STYLE@, prompt_string@),
{
    wrap(PROMPT_STYLE, prompt_string)
}

/// `note_string` in dark grey italics.
pub fn style_note(note_string: &str) -> (out: String)
    ensures
        out@ == styled(NOTE_STYLE@, note_string@),
{
    wrap(NOTE_STYLE, note_string)
}

/// `key_string` in bold blue.
pub fn style_key(key_string: &str) -> (out: String)
    ensures
        out@ == styled(KEY_STYLE@, key_string@),
{
    wrap(KEY_STYLE, key_string)
}

/// `value_string` in bold green italics.
pub fn style_value(value_string: &str) -> (out: String)
    ensures
        out@ == styled(VALUE_STYLE@, value_string@),
{
    wrap(VALUE_STYLE, value_string)
}

/// `italic_string` in italics.
pub fn style_italic(italic_string: &str) -> (out: String)
    ensures
        out@ == styled(ITALIC_STYLE@, italic_string@),
{
    wrap(ITALIC_STYLE, italic_string)
}

} // verus!
