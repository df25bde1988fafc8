//! One line of a `.env` file: a comment, a blank line, or text that may be a
//! `KEY=VALUE` assignment.

use vstd::prelude::*;
use vstd::string::*;
use crate::text::{
    find_char, is_blank, is_space, is_trimmed, lemma_position, lemma_position_at,
    lemma_trimmed_cut, lemma_trimmed_fixed, lemma_trimmed_is_trimmed, lemma_trimmed_margin,
    position, to_chars, trim_range, trimmed,
};

verus! {

/// The assignment that a line spells: the trimmed text before its first `=` as
/// the key, the trimmed text behind it as the value. A line without `=` spells
/// none. The key may be empty or hold spaces, and the value keeps its quotes.
pub open spec fn parse_line(line: Seq<char>) -> Option<(Seq<char>, Seq<char>)> {
    let at = position(line, '=');
    if at < line.len() {
        Some((trimmed(line.take(at)), trimmed(line.skip(at + 1))))
    } else {
        None
    }
}

/// A comment or a blank line: nothing is left after trimming, or what is left
/// starts with `#`.
pub open spec fn is_ignored(line: Seq<char>) -> bool {
    let text = trimmed(line);
    text.len() == 0 || text[0] == '#'
}

/// What a line of a file assigns: nothing where it is a comment or blank,
/// else what it spells.
pub open spec fn assignment_of(line: Seq<char>) -> Option<(Seq<char>, Seq<char>)> {
    if is_ignored(line) {
        None
    } else {
        parse_line(line)
    }
}

/// A line that should assign and does not: neither comment nor blank, and
/// without `=`.
pub open spec fn is_malformed(line: Seq<char>) -> bool {
    !is_ignored(line) && parse_line(line) is None
}

/// Whether a line of a file assigns a value to `key`.
pub open spec fn assigns(line: Seq<char>, key: Seq<char>) -> bool {
    match assignment_of(line) {
        Some(pair) => pair.0 == key,
        None => false,
    }
}

/// The line that assigns `value` to `key`.
pub open spec fn entry(key: Seq<char>, value: Seq<char>) -> Seq<char> {
    key + seq!['='] + value
}

/// What a line of a file is.
#[derive(Debug, Clone, PartialEq, Eq)]
pub enum Line {
    /// A comment or a blank line.
    Ignored,
    /// An assignment, as its key and its value.
    Assignment(String, String),
    /// Text that is none of the two: it holds no `=`.
    Malformed,
}

/// White space around the key and around the value does not count: a line made
/// of a trimmed key without `=`, a `=` and a trimmed value, with any white
/// space before, between and behind them, spells that key and that value.
pub proof fn lemma_parse_padded(
    lead: Seq<char>,
    key: Seq<char>,
    gap: Seq<char>,
    pad: Seq<char>,
    value: Seq<char>,
    tail: Seq<char>,
)
    requires
        is_blank(lead),
        is_blank(gap),
        is_blank(pad),
        is_blank(tail),
        is_trimmed(key),
        is_trimmed(value),
        !key.contains('='),
    ensures
        parse_line(lead + key + gap + seq!['='] + pad + value + tail) == Some((key, value)),
{
    let line = lead + key + gap + seq!['='] + pad + value + tail;
    let at = (lead.len() + key.len() + gap.len()) as int;
    assert forall|j: int| 0 <= j < at implies #[trigger] line[j] != '=' by {
        if j < lead.len() {
            assert(line[j] == lead[j]);
        } else if j < lead.len() + key.len() {
            assert(line[j] == key[j - lead.len()]);
        } else {
            assert(line[j] == gap[j - lead.len() - key.len()]);
        }
    }
    assert(line[at] == '=');
    lemma_position_at(line, '=', at);
    let before = line.take(at);
    let behind = line.skip(at + 1);
    assert(before =~= lead + key + gap);
    assert(behind =~= pad + value + tail);
    lemma_trimmed_margin(lead, key, gap);
    lemma_trimmed_margin(pad, value, tail);
    lemma_trimmed_fixed(key);
    lemma_trimmed_fixed(value);
}

/// It is one whether a line is trimmed before it is read or not: the line
/// and the trimmed line are comment or blank together, and spell the same
/// assignment.
pub proof fn lemma_trimmed_line_reads_same(line: Seq<char>)
    ensures
        is_ignored(trimmed(line)) == is_ignored(line),
        parse_line(trimmed(line)) == parse_line(line),
        assignment_of(trimmed(line)) == assignment_of(line),
{
    let cut = lemma_trimmed_cut(line);
    let text = trimmed(line);
    lemma_trimmed_is_trimmed(line);
    lemma_trimmed_fixed(text);
    let at = position(line, '=');
    lemma_position(line, '=');
    assert(!is_space('='));
    if at < line.len() {
        assert(cut.0 <= at < cut.1);
        assert forall|j: int| 0 <= j < at - cut.0 implies #[trigger] text[j] != '=' by {
            assert(text[j] == line[j + cut.0]);
        }
        assert(text[at - cut.0] == line[at]);
        lemma_position_at(text, '=', at - cut.0);
        let lead = line.take(cut.0);
        let tail = line.skip(cut.1);
        let none = Seq::<char>::empty();
        assert(line.take(at) =~= lead + text.take(at - cut.0) + none);
        assert(line.skip(at + 1) =~= none + text.skip(at - cut.0 + 1) + tail);
        lemma_trimmed_margin(lead, text.take(at - cut.0), none);
        lemma_trimmed_margin(none, text.skip(at - cut.0 + 1), tail);
    } else {
        assert forall|j: int| 0 <= j < text.len() implies #[trigger] text[j] != '=' by {
            assert(text[j] == line[j + cut.0]);
        }
        lemma_position_at(text, '=', text.len() as int);
    }
}

/// A line spells an assignment exactly when it holds a `=`.
pub proof fn lemma_parse_needs_equals(line: Seq<char>)
    ensures
        parse_line(line) is Some <==> line.contains('='),
{
    lemma_position(line, '=');
}

/// Reads `chars`, the characters of `line`, as an assignment.
fn parse_chars(line: &str, chars: &Vec<char>) -> (found: Option<(String, String)>)
    requires
        chars@ == line@,
    ensures
        found.deep_view() == parse_line(line@),
{
    let n = chars.len();
    let at = find_char(chars, 0, n, '=');
    assert(chars@.subrange(0, n as int) =~= line@);
    if at == n {
        return None;
    }
    let k = trim_range(chars, 0, at);
    let v = trim_range(chars, at + 1, n);
    let key = String::from_str(line.substring_char(k.0, k.1));
    let value = String::from_str(line.substring_char(v.0, v.1));
    Some((key, value))
}

/// Whether `chars` make a comment or a blank line.
fn ignored_chars(chars: &Vec<char>) -> (ignored: bool)
    ensures
        ignored == is_ignored(chars@),
{
    let n = chars.len();
    let cut = trim_range(chars, 0, n);
    assert(chars@.subrange(0, n as int) =~= chars@);
    assert(cut.0 < cut.1 ==> chars@.subrange(cut.0 as int, cut.1 as int)[0] == chars[cut.0 as int]);
    cut.0 == cut.1 || chars[cut.0] == '#'
}

/// Splits a line at its first `=` into key and value, each trimmed. A line
/// without `=` gives `None`; nothing else is asked of the key or the value.
pub fn parse_env_line(line: &str) -> (found: Option<(String, String)>)
    ensures
        found.deep_view() == parse_line(line@),
        found is None <==> !line@.contains('='),
{
    proof {
        lemma_parse_needs_equals(line@);
    }
    let chars = to_chars(line);
    parse_chars(line, &chars)
}

/// Whether a line of a file is a comment or blank, and so assigns nothing.
pub fn is_comment_or_blank(line: &str) -> (ignored: bool)
    ensures
        ignored == is_ignored(line@),
{
    let chars = to_chars(line);
    ignored_chars(&chars)
}

/// Reads a line of a file: comments and blank lines are set aside first, the
/// rest is split at its first `=`, and what holds none is malformed.
pub fn read_line(line: &str) -> (read: Line)
    ensures
        (match read {
            Line::Ignored => is_ignored(line@),
            Line::Assignment(key, value) => assignment_of(line@) == Some((key@, value@)),
            Line::Malformed => is_malformed(line@),
        }),
{
    let chars = to_chars(line);
    if ignored_chars(&chars) {
        Line::Ignored
    } else {
        match parse_chars(line, &chars) {
            Some(pair) => Line::Assignment(pair.0, pair.1),
            None => Line::Malformed,
        }
    }
}

} // verus!
