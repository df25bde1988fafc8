//! Showing a file: all of its assignments in order, or the one for a key.

use vstd::prelude::*;
use crate::file::{split_lines, split_lines_of};
use crate::line::{assignment_of, assigns, is_malformed, read_line, Line};
use crate::text::str_eq;

verus! {

/// The index of the first line that assigns `key`, or `lines.len()` where none does.
pub open spec fn first_match(lines: Seq<Seq<char>>, key: Seq<char>) -> int
    decreases lines.len(),
{
    if lines.len() == 0 {
        0
    } else if assigns(lines[0], key) {
        0
    } else {
        1 + first_match(lines.drop_first(), key)
    }
}

/// Whether some line assigns `key`.
pub open spec fn has_key(lines: Seq<Seq<char>>, key: Seq<char>) -> bool {
    exists|i: int| 0 <= i < lines.len() && assigns(#[trigger] lines[i], key)
}

/// The assignments of a file, in the order of its lines.
pub open spec fn assignments(lines: Seq<Seq<char>>) -> Seq<(Seq<char>, Seq<char>)>
    decreases lines.len(),
{
    if lines.len() == 0 {
        Seq::empty()
    } else {
        let before = assignments(lines.drop_last());
        match assignment_of(lines.last()) {
            Some(pair) => before.push(pair),
            None => before,
        }
    }
}

/// The numbers of the malformed lines of a file, ascending; the first line
/// of a file has the number 1.
pub open spec fn malformed(lines: Seq<Seq<char>>) -> Seq<int>
    decreases lines.len(),
{
    if lines.len() == 0 {
        Seq::empty()
    } else {
        let before = malformed(lines.drop_last());
        if is_malformed(lines.last()) {
            before.push(lines.len() as int)
        } else {
            before
        }
    }
}

/// What the first line that assigns `key` assigns, or nothing where no line
/// assigns it. Later lines that assign `key` are not looked at.
pub open spec fn lookup(lines: Seq<Seq<char>>, key: Seq<char>) -> Option<(Seq<char>, Seq<char>)> {
    let at = first_match(lines, key);
    if 0 <= at < lines.len() {
        assignment_of(lines[at])
    } else {
        None
    }
}

/// The numbers in `v` as mathematical integers.
pub open spec fn numbers(v: Seq<usize>) -> Seq<int> {
    v.map_values(|n: usize| n as int)
}

/// `first_match` is the one index whose line assigns `key` with no such line before it.
pub proof fn lemma_first_match_at(lines: Seq<Seq<char>>, key: Seq<char>, i: int)
    requires
        0 <= i <= lines.len(),
        forall|j: int| 0 <= j < i ==> !assigns(#[trigger] lines[j], key),
        i < lines.len() ==> assigns(lines[i], key),
    ensures
        first_match(lines, key) == i,
    decreases i,
{
    if i > 0 {
        let rest = lines.drop_first();
        assert(!assigns(lines[0], key));
        assert forall|j: int| 0 <= j < i - 1 implies !assigns(#[trigger] rest[j], key) by {
            assert(rest[j] == lines[j + 1]);
        }
        lemma_first_match_at(rest, key, i - 1);
    }
}

/// What `first_match` finds: an index within `lines`, or their number; a line
/// that assigns `key` there, and none before.
pub proof fn lemma_first_match(lines: Seq<Seq<char>>, key: Seq<char>)
    ensures
        0 <= first_match(lines, key) <= lines.len(),
        forall|j: int| 0 <= j < first_match(lines, key) ==> !assigns(#[trigger] lines[j], key),
        first_match(lines, key) < lines.len() ==> assigns(lines[first_match(lines, key)], key),
        first_match(lines, key) < lines.len() <==> has_key(lines, key),
    decreases lines.len(),
{
    let at = first_match(lines, key);
    if lines.len() > 0 && !assigns(lines[0], key) {
        let rest = lines.drop_first();
        lemma_first_match(rest, key);
        assert forall|j: int| 0 <= j < at implies !assigns(#[trigger] lines[j], key) by {
            if j > 0 {
                assert(rest[j - 1] == lines[j]);
            }
        }
        if at < lines.len() {
            assert(rest[first_match(rest, key)] == lines[at]);
        }
    }
    if at < lines.len() {
        assert(assigns(lines[at], key));
    }
    if has_key(lines, key) {
        let k = choose|k: int| 0 <= k < lines.len() && assigns(#[trigger] lines[k], key);
        assert(at <= k);
    }
}

/// What there is to show of a file.
#[derive(Debug, Clone, PartialEq, Eq)]
pub enum Shown {
    /// There is no file.
    NoFile,
    /// Every assignment of the file in order, and the numbers of the lines
    /// that had to be passed over because they hold no `=`.
    Listing { entries: Vec<(String, String)>, skipped: Vec<usize> },
    /// The first assignment for the key that was asked for.
    Found { key: String, value: String },
    /// No line assigns the key that was asked for.
    KeyNotFound,
}

/// Every assignment among `lines`, in order, and the numbers, counted from 1,
/// of the lines that are neither comment nor blank and hold no `=`.
pub fn list_assignments(lines: &Vec<String>) -> (listed: (Vec<(String, String)>, Vec<usize>))
    ensures
        listed.0.deep_view() == assignments(lines.deep_view()),
        numbers(listed.1@) == malformed(lines.deep_view()),
{
    let ghost all = lines.deep_view();
    let mut entries: Vec<(String, String)> = Vec::new();
    let mut skipped: Vec<usize> = Vec::new();
    let mut i: usize = 0;
    proof {
        assert(all.take(0) =~= Seq::empty());
        assert(entries.deep_view() =~= assignments(all.take(0)));
        assert(numbers(skipped@) =~= malformed(all.take(0)));
    }
    while i < lines.len()
        invariant
            i <= lines.len(),
            all == lines.deep_view(),
            entries.deep_view() == assignments(all.take(i as int)),
            numbers(skipped@) == malformed(all.take(i as int)),
        decreases lines.len() - i,
    {
        let ghost before = entries.deep_view();
        let ghost before_skipped = numbers(skipped@);
        proof {
            let upto = all.take(i + 1);
            assert(upto.drop_last() =~= all.take(i as int));
            assert(upto.last() == lines[i as int]@);
        }
        match read_line(lines[i].as_str()) {
            Line::Assignment(key, value) => {
                entries.push((key, value));
                assert(entries.deep_view() =~= before.push((key@, value@)));
            },
            Line::Malformed => {
                skipped.push(i + 1);
                assert(numbers(skipped@) =~= before_skipped.push(i + 1));
            },
            Line::Ignored => {},
        }
        i += 1;
    }
    assert(all.take(i as int) =~= all);
    (entries, skipped)
}

/// Where `key` is first assigned among `lines`: the index of that line, and
/// the key and the value as the line holds them, trimmed. Where no line
/// assigns `key`, the index is the number of lines. Only an exact match of
/// the key counts.
pub fn locate(lines: &Vec<String>, key: &str) -> (place: (usize, Option<(String, String)>))
    ensures
        place.0 == first_match(lines.deep_view(), key@),
        place.0 <= lines.len(),
        place.1.deep_view() == lookup(lines.deep_view(), key@),
{
    let ghost all = lines.deep_view();
    let mut i: usize = 0;
    while i < lines.len()
        invariant
            i <= lines.len(),
            all == lines.deep_view(),
            forall|j: int| 0 <= j < i ==> !assigns(#[trigger] all[j], key@),
        decreases lines.len() - i,
    {
        assert(all[i as int] == lines[i as int]@);
        match read_line(lines[i].as_str()) {
            Line::Assignment(name, value) => {
                if str_eq(name.as_str(), key) {
                    proof {
                        lemma_first_match_at(all, key@, i as int);
                    }
                    return (i, Some((name, value)));
                }
            },
            _ => {},
        }
        i += 1;
    }
    proof {
        lemma_first_match_at(all, key@, i as int);
    }
    (i, None)
}

/// The first assignment for `key` among `lines`, or `None` where no line
/// assigns it.
pub fn find_assignment(lines: &Vec<String>, key: &str) -> (found: Option<(String, String)>)
    ensures
        found.deep_view() == lookup(lines.deep_view(), key@),
        found is Some <==> has_key(lines.deep_view(), key@),
{
    proof {
        lemma_first_match(lines.deep_view(), key@);
    }
    locate(lines, key).1
}

/// What to show of a file. `content` is the text of the file, or `None` where
/// there is none. Without a `key` the answer lists all assignments; with one,
/// it is the first assignment for that key, or the news that there is none.
pub fn show_env_file(content: Option<&str>, key: Option<&str>) -> (shown: Shown)
    ensures
        content is None ==> shown is NoFile,
        content is Some && key is None ==> (match shown {
            Shown::Listing { entries, skipped } => {
                &&& entries.deep_view() == assignments(split_lines(content.unwrap()@))
                &&& numbers(skipped@) == malformed(split_lines(content.unwrap()@))
            },
            _ => false,
        }),
        content is Some && key is Some ==> (match lookup(
            split_lines(content.unwrap()@),
            key.unwrap()@,
        ) {
            Some(pair) => shown matches Shown::Found { key: k, value: v } && k@ == pair.0 && v@
                == pair.1,
            None => shown is KeyNotFound,
        }),
{
    match content {
        None => Shown::NoFile,
        Some(text) => {
            let lines = split_lines_of(text);
            match key {
                None => {
                    let listed = list_assignments(&lines);
                    Shown::Listing { entries: listed.0, skipped: listed.1 }
                },
                Some(wanted) => match find_assignment(&lines, wanted) {
                    Some(pair) => Shown::Found { key: pair.0, value: pair.1 },
                    None => Shown::KeyNotFound,
                },
            }
        },
    }
}

} // verus!
