//! What holds of setting and showing taken together.

use vstd::prelude::*;
use crate::file::{
    ends_with_cr, lemma_split_join, lemma_split_no_line_feed, split_lines, strip_cr,
};
use crate::line::{assignment_of, assigns, entry};
use crate::reader::{first_match, has_key, lemma_first_match, lemma_first_match_at, lookup};
use crate::text::{
    is_space, is_trimmed, lemma_position, lemma_position_at, lemma_trimmed_cut,
    lemma_trimmed_fixed, lemma_trimmed_is_trimmed, lemma_trimmed_margin, position, trimmed,
};
use crate::writer::{is_plain_key, is_quoted, quoted, updated_text, upsert};

verus! {

/// The line `key=value` assigns `key` when the key is plain, and what it
/// assigns is `value` trimmed.
pub proof fn lemma_entry_assigns(key: Seq<char>, value: Seq<char>)
    requires
        is_plain_key(key),
    ensures
        assignment_of(entry(key, value)) == Some((key, trimmed(value))),
        assigns(entry(key, value), key),
{
    let line = entry(key, value);
    let at = key.len() as int;
    assert forall|j: int| 0 <= j < at implies #[trigger] line[j] != '=' by {
        assert(line[j] == key[j]);
    }
    assert(line[at] == '=');
    lemma_position_at(line, '=', at);
    assert(line.take(at) =~= key);
    assert(line.skip(at + 1) =~= value);
    lemma_trimmed_fixed(key);
    let cut = lemma_trimmed_cut(line);
    assert(!is_space('='));
    if key.len() > 0 {
        assert(line[0] == key[0]);
    }
    assert(!is_space(line[0]));
    assert(cut.0 == 0);
    assert(cut.1 > at);
    assert(trimmed(line)[0] == line[0]);
}

/// Only a plain key is ever assigned: whatever a line assigns is trimmed,
/// holds no `=` and does not start with `#`.
pub proof fn lemma_assigned_key_is_plain(line: Seq<char>, key: Seq<char>)
    requires
        assigns(line, key),
    ensures
        is_plain_key(key),
{
    let at = position(line, '=');
    lemma_position(line, '=');
    let before = line.take(at);
    let cut = lemma_trimmed_cut(before);
    lemma_trimmed_is_trimmed(before);
    assert forall|i: int| 0 <= i < key.len() implies #[trigger] key[i] != '=' by {
        assert(key[i] == line[cut.0 + i]);
    }
    if key.len() > 0 {
        let whole = lemma_trimmed_cut(line);
        assert(key[0] == line[cut.0]);
        assert(before[cut.0] == line[cut.0]);
        if whole.0 < cut.0 {
            assert(before[whole.0] == line[whole.0]);
        }
        assert(whole.0 == cut.0);
        assert(trimmed(line)[0] == line[whole.0]);
    }
}

/// Setting a key that the file holds leaves the number of lines as it is;
/// setting one that it does not hold adds one line.
pub proof fn lemma_upsert_len(lines: Seq<Seq<char>>, key: Seq<char>, value: Seq<char>)
    ensures
        has_key(lines, key) ==> upsert(lines, key, value).len() == lines.len(),
        !has_key(lines, key) ==> upsert(lines, key, value).len() == lines.len() + 1,
{
    lemma_first_match(lines, key);
}

/// Setting a key leaves every other line where it is and as it is: the
/// comments, the blank lines, the malformed lines, the lines that assign
/// another key, and the lines that assign this key behind the first that does.
pub proof fn lemma_upsert_keeps_others(lines: Seq<Seq<char>>, key: Seq<char>, value: Seq<char>)
    ensures
        forall|i: int|
            0 <= i < lines.len() && i != first_match(lines, key) ==> #[trigger] upsert(
                lines,
                key,
                value,
            )[i] == lines[i],
        forall|i: int|
            0 <= i < lines.len() && !assigns(lines[i], key) ==> #[trigger] upsert(
                lines,
                key,
                value,
            )[i] == lines[i],
{
    lemma_first_match(lines, key);
}

/// Setting a plain key to the same value a second time changes nothing.
pub proof fn lemma_upsert_idempotent(lines: Seq<Seq<char>>, key: Seq<char>, value: Seq<char>)
    requires
        is_plain_key(key),
    ensures
        upsert(upsert(lines, key, value), key, value) == upsert(lines, key, value),
{
    let at = first_match(lines, key);
    let once = upsert(lines, key, value);
    lemma_first_match(lines, key);
    lemma_entry_assigns(key, value);
    assert forall|j: int| 0 <= j < at implies !assigns(#[trigger] once[j], key) by {
        assert(once[j] == lines[j]);
    }
    assert(once[at] == entry(key, value));
    lemma_first_match_at(once, key, at);
    assert(upsert(once, key, value) =~= once);
}

/// A key that is not plain is never found again: setting it a second time
/// adds a second line.
pub proof fn lemma_upsert_repeats(lines: Seq<Seq<char>>, key: Seq<char>, value: Seq<char>)
    requires
        !is_plain_key(key),
    ensures
        upsert(upsert(lines, key, value), key, value).len() == lines.len() + 2,
{
    let once = upsert(lines, key, value);
    assert forall|i: int| 0 <= i < lines.len() implies !assigns(#[trigger] lines[i], key) by {
        if assigns(lines[i], key) {
            lemma_assigned_key_is_plain(lines[i], key);
        }
    }
    assert forall|i: int| 0 <= i < once.len() implies !assigns(#[trigger] once[i], key) by {
        if assigns(once[i], key) {
            lemma_assigned_key_is_plain(once[i], key);
        }
    }
    lemma_first_match(lines, key);
    lemma_first_match(once, key);
}

/// After a plain key is set, looking it up gives the key and the value that
/// was set, trimmed.
pub proof fn lemma_set_then_show(lines: Seq<Seq<char>>, key: Seq<char>, value: Seq<char>)
    requires
        is_plain_key(key),
    ensures
        lookup(upsert(lines, key, value), key) == Some((key, trimmed(value))),
        is_trimmed(value) ==> lookup(upsert(lines, key, value), key) == Some((key, value)),
{
    let at = first_match(lines, key);
    let once = upsert(lines, key, value);
    lemma_first_match(lines, key);
    lemma_entry_assigns(key, value);
    assert forall|j: int| 0 <= j < at implies !assigns(#[trigger] once[j], key) by {
        assert(once[j] == lines[j]);
    }
    assert(once[at] == entry(key, value));
    lemma_first_match_at(once, key, at);
    if is_trimmed(value) {
        lemma_trimmed_fixed(value);
    }
}

/// Quotes are part of a value: a value between quotes that is set for a plain
/// key is shown with its quotes.
pub proof fn lemma_quotes_kept(lines: Seq<Seq<char>>, key: Seq<char>, value: Seq<char>)
    requires
        is_plain_key(key),
        is_quoted(value),
    ensures
        lookup(upsert(lines, key, value), key) == Some((key, value)),
{
    assert(!is_space('"') && !is_space('\''));
    lemma_set_then_show(lines, key, value);
}

/// An answer to the prompt is stored between double quotes, and so it is
/// shown as it is stored.
pub proof fn lemma_prompted_value_kept(lines: Seq<Seq<char>>, key: Seq<char>, answer: Seq<char>)
    requires
        is_plain_key(key),
    ensures
        is_quoted(quoted(trimmed(answer))),
        lookup(upsert(lines, key, quoted(trimmed(answer))), key) == Some(
            (key, quoted(trimmed(answer))),
        ),
{
    lemma_quotes_kept(lines, key, quoted(trimmed(answer)));
}

/// A carriage return at the end of a line does not change what the line assigns.
pub proof fn lemma_strip_cr_assigns(line: Seq<char>)
    ensures
        assignment_of(strip_cr(line)) == assignment_of(line),
{
    if ends_with_cr(line) {
        let front = line.drop_last();
        let none = Seq::<char>::empty();
        let cr = seq!['\r'];
        assert(is_space('\r'));
        assert(line =~= none + front + cr);
        assert(front =~= none + front + none);
        lemma_trimmed_margin(none, front, cr);
        lemma_trimmed_margin(none, front, none);
        let at = position(line, '=');
        lemma_position(line, '=');
        if at < line.len() {
            assert(at < front.len());
            assert forall|j: int| 0 <= j < at implies #[trigger] front[j] != '=' by {
                assert(front[j] == line[j]);
            }
            assert(front[at] == line[at]);
            lemma_position_at(front, '=', at);
            assert(front.take(at) =~= line.take(at));
            let behind = front.skip(at + 1);
            assert(line.skip(at + 1) =~= none + behind + cr);
            assert(behind =~= none + behind + none);
            lemma_trimmed_margin(none, behind, cr);
            lemma_trimmed_margin(none, behind, none);
        } else {
            assert forall|j: int| 0 <= j < front.len() implies #[trigger] front[j] != '=' by {
                assert(front[j] == line[j]);
            }
            lemma_position_at(front, '=', front.len() as int);
        }
    }
}

/// The line `key=value` holds no line feed where neither the key nor the value does.
pub proof fn lemma_entry_one_line(key: Seq<char>, value: Seq<char>)
    requires
        !key.contains('\n'),
        !value.contains('\n'),
    ensures
        !entry(key, value).contains('\n'),
{
    let line = entry(key, value);
    assert forall|j: int| 0 <= j < line.len() implies #[trigger] line[j] != '\n' by {
        if j < key.len() {
            assert(line[j] == key[j]);
        } else if j > key.len() {
            assert(line[j] == value[j - key.len() - 1]);
        }
    }
}

/// What is read back from a file in which a key was set: the lines that the
/// file held, with the key set among them, each without a carriage return at
/// its end. This asks that neither the key nor the value holds a line feed.
pub proof fn lemma_update_reads_back(text: Seq<char>, key: Seq<char>, value: Seq<char>)
    requires
        !key.contains('\n'),
        !value.contains('\n'),
    ensures
        ({
            let after = upsert(split_lines(text), key, value);
            let back = split_lines(updated_text(text, key, value));
            &&& back.len() == after.len()
            &&& forall|i: int| 0 <= i < after.len() ==> #[trigger] back[i] == strip_cr(after[i])
            &&& forall|i: int|
                0 <= i < after.len() ==> assignment_of(#[trigger] back[i]) == assignment_of(after[i])
        }),
{
    let lines = split_lines(text);
    let after = upsert(lines, key, value);
    lemma_entry_one_line(key, value);
    lemma_split_no_line_feed(text);
    lemma_first_match(lines, key);
    assert forall|i: int| 0 <= i < after.len() implies !(#[trigger] after[i]).contains('\n') by {
        if i != first_match(lines, key) {
            assert(after[i] == lines[i]);
        }
    }
    lemma_split_join(after);
    let back = split_lines(updated_text(text, key, value));
    assert forall|i: int| 0 <= i < after.len() implies assignment_of(#[trigger] back[i])
        == assignment_of(after[i]) by {
        lemma_strip_cr_assigns(after[i]);
    }
}

/// The number of lines that a file holds after a key was set in it: as many
/// as before where the file held the key, and one more where it did not.
pub proof fn lemma_update_line_count(text: Seq<char>, key: Seq<char>, value: Seq<char>)
    requires
        !key.contains('\n'),
        !value.contains('\n'),
    ensures
        has_key(split_lines(text), key) ==> split_lines(updated_text(text, key, value)).len()
            == split_lines(text).len(),
        !has_key(split_lines(text), key) ==> split_lines(updated_text(text, key, value)).len()
            == split_lines(text).len() + 1,
{
    lemma_update_reads_back(text, key, value);
    lemma_upsert_len(split_lines(text), key, value);
}

/// After a plain key is set in a file, the file shows that key with the value
/// that was set, trimmed. This asks that neither of them holds a line feed.
pub proof fn lemma_update_then_show(text: Seq<char>, key: Seq<char>, value: Seq<char>)
    requires
        is_plain_key(key),
        !key.contains('\n'),
        !value.contains('\n'),
    ensures
        lookup(split_lines(updated_text(text, key, value)), key) == Some((key, trimmed(value))),
{
    lemma_update_reads_back(text, key, value);
    let lines = split_lines(text);
    let after = upsert(lines, key, value);
    let back = split_lines(updated_text(text, key, value));
    let at = first_match(after, key);
    lemma_set_then_show(lines, key, value);
    lemma_first_match(after, key);
    assert forall|j: int| 0 <= j < at implies !assigns(#[trigger] back[j], key) by {
        assert(assignment_of(back[j]) == assignment_of(after[j]));
        assert(!assigns(after[j], key));
    }
    assert(assignment_of(back[at]) == assignment_of(after[at]));
    lemma_first_match_at(back, key, at);
}

/// Setting a plain key in a file a second time to the same value leaves the
/// file as the first time left it. This asks that neither the key nor the
/// value holds a line feed, and that no line of the file ends with a carriage
/// return, but for the line that gives way.
pub proof fn lemma_update_idempotent(text: Seq<char>, key: Seq<char>, value: Seq<char>)
    requires
        is_plain_key(key),
        !key.contains('\n'),
        !value.contains('\n'),
        forall|i: int|
            0 <= i < split_lines(text).len() && i != first_match(split_lines(text), key)
                ==> !ends_with_cr(#[trigger] split_lines(text)[i]),
    ensures
        updated_text(updated_text(text, key, value), key, value) == updated_text(text, key, value),
{
    let lines = split_lines(text);
    let after = upsert(lines, key, value);
    let back = split_lines(updated_text(text, key, value));
    let at = first_match(lines, key);
    lemma_update_reads_back(text, key, value);
    lemma_first_match(lines, key);
    lemma_entry_assigns(key, value);
    assert(after[at] == entry(key, value));
    assert forall|j: int| 0 <= j < at implies !assigns(#[trigger] back[j], key) by {
        assert(after[j] == lines[j]);
        assert(assignment_of(back[j]) == assignment_of(after[j]));
    }
    assert(assignment_of(back[at]) == assignment_of(after[at]));
    lemma_first_match_at(back, key, at);
    assert forall|i: int| 0 <= i < after.len() && i != at implies back[i] == after[i] by {
        assert(after[i] == lines[i]);
        assert(back[i] == strip_cr(after[i]));
    }
    assert(upsert(back, key, value) =~= after);
}

} // verus!
