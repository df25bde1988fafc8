//! Setting a key: the value to store, and the file with the key's line
//! replaced or added.

use vstd::prelude::*;
use vstd::string::*;
use crate::file::{join_lines, join_lines_of, split_lines, split_lines_of};
use crate::line::entry;
use crate::reader::{first_match, has_key, lemma_first_match, locate};
use crate::text::{is_trimmed, trim, trimmed};

verus! {

/// `lines` with `key` set to `value`: the first line that assigns `key` gives
/// way to `key=value`; where no line assigns it, `key=value` is added at the
/// end. Every other line stays as it is and where it is, a later line that
/// assigns `key` too.
pub open spec fn upsert(lines: Seq<Seq<char>>, key: Seq<char>, value: Seq<char>) -> Seq<Seq<char>> {
    let at = first_match(lines, key);
    if 0 <= at < lines.len() {
        lines.update(at, entry(key, value))
    } else {
        lines.push(entry(key, value))
    }
}

/// The text of a file after `key` is set to `value` in it.
pub open spec fn updated_text(text: Seq<char>, key: Seq<char>, value: Seq<char>) -> Seq<char> {
    join_lines(upsert(split_lines(text), key, value))
}

/// `value` stands between two quote characters of one kind, single or double.
pub open spec fn is_quoted(value: Seq<char>) -> bool {
    value.len() >= 2 && (value[0] == '"' || value[0] == '\'') && value.last() == value[0]
}

/// `text` between double quotes.
pub open spec fn quoted(text: Seq<char>) -> Seq<char> {
    seq!['"'] + text + seq!['"']
}

/// The value to store: one that was given is stored as it is, with its
/// quotes where it has them; an answer to a prompt is trimmed and put between
/// double quotes, an empty answer too.
pub open spec fn stored_value(given: Option<Seq<char>>, answer: Seq<char>) -> Seq<char> {
    match given {
        Some(value) => value,
        None => quoted(trimmed(answer)),
    }
}

/// A key that a line can assign: trimmed, without `=`, and not starting with `#`.
pub open spec fn is_plain_key(key: Seq<char>) -> bool {
    &&& is_trimmed(key)
    &&& !key.contains('=')
    &&& key.len() > 0 ==> key[0] != '#'
}

/// The line `key=value`.
pub fn make_entry(key: &str, value: &str) -> (line: String)
    ensures
        line@ == entry(key@, value@),
{
    proof {
        reveal_strlit("=");
        assert("="@ =~= seq!['=']);
    }
    let mut line = String::from_str(key);
    line.append("=");
    line.append(value);
    line
}

/// The value to store for a key. A value given with the command is kept as it
/// is, quotes included; without one, `answer` is what was typed at the prompt,
/// and it is trimmed and wrapped in double quotes.
pub fn format_value(given: Option<&str>, answer: &str) -> (text: String)
    ensures
        text@ == stored_value(given.deep_view(), answer@),
{
    match given {
        Some(value) => String::from_str(value),
        None => {
            proof {
                reveal_strlit("\"");
                assert("\""@ =~= seq!['"']);
            }
            let inner = trim(answer);
            let mut text = String::from_str("\"");
            text.append(inner.as_str());
            text.append("\"");
            text
        },
    }
}

/// Sets `key` to `value` among the lines of a file: the first line that
/// assigns `key` becomes `key=value`, or `key=value` is added as the last line
/// where no line assigns it. All other lines keep their text and their place.
pub fn upsert_lines(lines: &mut Vec<String>, key: &str, value: &str)
    ensures
        final(lines).deep_view() == upsert(old(lines).deep_view(), key@, value@),
        has_key(old(lines).deep_view(), key@) ==> final(lines).len() == old(lines).len(),
        !has_key(old(lines).deep_view(), key@) ==> final(lines).len() == old(lines).len() + 1,
        forall|i: int|
            0 <= i < old(lines).len() && i != first_match(old(lines).deep_view(), key@)
                ==> #[trigger] final(lines)[i]@ == old(lines)[i]@,
{
    let ghost before = lines.deep_view();
    let n = lines.len();
    let at = locate(lines, key).0;
    proof {
        lemma_first_match(before, key@);
    }
    let line = make_entry(key, value);
    if at < n {
        lines.set(at, line);
        assert(lines.deep_view() =~= before.update(at as int, entry(key@, value@)));
    } else {
        lines.push(line);
        assert(lines.deep_view() =~= before.push(entry(key@, value@)));
    }
    assert forall|i: int|
        0 <= i < n && i != first_match(before, key@) implies #[trigger] lines[i]@ == old(
        lines,
    )[i]@ by {
        assert(lines.deep_view()[i] == lines[i]@);
        assert(before[i] == old(lines)[i]@);
    }
}

/// The new text of a file in which `property` is set to `value`. `existing`
/// is the text the file holds, or `None` where there is no file yet, which
/// counts as an empty one. Every line of the result ends with a line feed.
pub fn config_env_file(existing: Option<&str>, property: &str, value: &str) -> (text: String)
    ensures
        text@ == updated_text(
            (match existing {
                Some(old_text) => old_text@,
                None => Seq::empty(),
            }),
            property@,
            value@,
        ),
{
    let mut lines = match existing {
        Some(old_text) => split_lines_of(old_text),
        None => Vec::new(),
    };
    assert(existing is None ==> lines.deep_view() =~= split_lines(Seq::empty()));
    upsert_lines(&mut lines, property, value);
    join_lines_of(&lines)
}

} // verus!
