//! The text of a file as a list of lines, and back.

use vstd::prelude::*;
use vstd::string::*;
use crate::text::{find_char, lemma_position, lemma_position_at, position, to_chars};

verus! {

/// `s` ends with a carriage return.
pub open spec fn ends_with_cr(s: Seq<char>) -> bool {
    s.len() > 0 && s.last() == '\r'
}

/// `s` without a carriage return at its end.
pub open spec fn strip_cr(s: Seq<char>) -> Seq<char> {
    if ends_with_cr(s) {
        s.drop_last()
    } else {
        s
    }
}

/// The lines of a text. A line ends at a line feed, or at a carriage return
/// directly before one; neither belongs to the line. What follows the last
/// line feed is a line too unless it is empty, and keeps a carriage return at
/// its end.
pub open spec fn split_lines(text: Seq<char>) -> Seq<Seq<char>>
    decreases text.len(),
{
    let at = position(text, '\n');
    if text.len() == 0 {
        Seq::empty()
    } else if 0 <= at < text.len() {
        seq![strip_cr(text.take(at))] + split_lines(text.skip(at + 1))
    } else {
        seq![text]
    }
}

/// The text made of `lines`, a line feed behind each of them, the last one too.
pub open spec fn join_lines(lines: Seq<Seq<char>>) -> Seq<char>
    decreases lines.len(),
{
    if lines.len() == 0 {
        Seq::empty()
    } else {
        join_lines(lines.drop_last()) + lines.last() + seq!['\n']
    }
}

/// Text that reads back as one line, unchanged: it holds no line feed and does
/// not end with a carriage return.
pub open spec fn is_single_line(s: Seq<char>) -> bool {
    !s.contains('\n') && !ends_with_cr(s)
}

/// Joined text starts with the first line and its line feed.
pub proof fn lemma_join_first(lines: Seq<Seq<char>>)
    requires
        lines.len() > 0,
    ensures
        join_lines(lines) == lines[0] + seq!['\n'] + join_lines(lines.drop_first()),
    decreases lines.len(),
{
    if lines.len() == 1 {
        assert(lines.drop_last() =~= Seq::empty());
        assert(lines.drop_first() =~= Seq::empty());
        assert(join_lines(lines) =~= lines[0] + seq!['\n'] + join_lines(lines.drop_first()));
    } else {
        let front = lines.drop_last();
        lemma_join_first(front);
        assert(front.drop_first() =~= lines.drop_first().drop_last());
        assert(lines.drop_first().last() == lines.last());
        assert(join_lines(lines) =~= lines[0] + seq!['\n'] + join_lines(lines.drop_first()));
    }
}

/// No line of a text holds a line feed.
pub proof fn lemma_split_no_line_feed(text: Seq<char>)
    ensures
        forall|i: int|
            0 <= i < split_lines(text).len() ==> !(#[trigger] split_lines(text)[i]).contains('\n'),
    decreases text.len(),
{
    let at = position(text, '\n');
    lemma_position(text, '\n');
    if text.len() > 0 && at < text.len() {
        let first = strip_cr(text.take(at));
        let rest = split_lines(text.skip(at + 1));
        lemma_split_no_line_feed(text.skip(at + 1));
        assert forall|i: int| 0 <= i < split_lines(text).len() implies !(
        #[trigger] split_lines(text)[i]).contains('\n') by {
            if i == 0 {
                assert forall|j: int| 0 <= j < first.len() implies first[j] != '\n' by {
                    assert(first[j] == text[j]);
                }
            } else {
                assert(split_lines(text)[i] == rest[i - 1]);
            }
        }
    }
}

/// Writing lines out and reading them back gives the same lines, but for a
/// carriage return at the end of a line, which is lost. This holds as long as
/// no line holds a line feed.
pub proof fn lemma_split_join(lines: Seq<Seq<char>>)
    requires
        forall|i: int| 0 <= i < lines.len() ==> !(#[trigger] lines[i]).contains('\n'),
    ensures
        split_lines(join_lines(lines)).len() == lines.len(),
        forall|i: int|
            0 <= i < lines.len() ==> #[trigger] split_lines(join_lines(lines))[i] == strip_cr(
                lines[i],
            ),
    decreases lines.len(),
{
    if lines.len() > 0 {
        let first = lines[0];
        let rest = lines.drop_first();
        let text = join_lines(lines);
        lemma_join_first(lines);
        assert forall|i: int| 0 <= i < rest.len() implies !(#[trigger] rest[i]).contains('\n') by {
            assert(rest[i] == lines[i + 1]);
        }
        lemma_split_join(rest);
        let at = first.len() as int;
        assert forall|j: int| 0 <= j < at implies #[trigger] text[j] != '\n' by {
            assert(text[j] == first[j]);
        }
        assert(text[at] == '\n');
        lemma_position_at(text, '\n', at);
        assert(text.take(at) =~= first);
        assert(text.skip(at + 1) =~= join_lines(rest));
        let back = split_lines(text);
        assert(back == seq![strip_cr(first)] + split_lines(join_lines(rest)));
        assert forall|i: int| 0 <= i < lines.len() implies #[trigger] back[i] == strip_cr(
            lines[i],
        ) by {
            if i > 0 {
                assert(back[i] == split_lines(join_lines(rest))[i - 1]);
                assert(rest[i - 1] == lines[i]);
            }
        }
    }
}

/// Writing single lines out and reading them back gives the same lines.
pub proof fn lemma_split_join_single(lines: Seq<Seq<char>>)
    requires
        forall|i: int| 0 <= i < lines.len() ==> is_single_line(#[trigger] lines[i]),
    ensures
        split_lines(join_lines(lines)) == lines,
{
    lemma_split_join(lines);
    assert(split_lines(join_lines(lines)) =~= lines);
}

/// The lines of `text`, in order.
pub fn split_lines_of(text: &str) -> (lines: Vec<String>)
    ensures
        lines.deep_view() == split_lines(text@),
{
    let chars = to_chars(text);
    let n = chars.len();
    let mut lines: Vec<String> = Vec::new();
    let mut start: usize = 0;
    assert(text@.skip(0) =~= text@);
    assert(lines.deep_view() + split_lines(text@) =~= split_lines(text@));
    while start < n
        invariant
            start <= n,
            n == chars.len(),
            chars@ == text@,
            split_lines(text@) == lines.deep_view() + split_lines(text@.skip(start as int)),
        decreases n - start,
    {
        let ghost rest = text@.skip(start as int);
        let ghost before = lines.deep_view();
        let at = find_char(&chars, start, n, '\n');
        assert(chars@.subrange(start as int, n as int) =~= rest);
        if at < n {
            let end = if at > start && chars[at - 1] == '\r' {
                at - 1
            } else {
                at
            };
            let line = String::from_str(text.substring_char(start, end));
            proof {
                assert(rest.take(at - start) =~= text@.subrange(start as int, at as int));
                assert(line@ =~= strip_cr(rest.take(at - start)));
                assert(rest.skip(at - start + 1) =~= text@.skip(at + 1));
            }
            lines.push(line);
            proof {
                assert(lines.deep_view() =~= before.push(line@));
                assert(lines.deep_view() + split_lines(text@.skip(at + 1)) =~= before + split_lines(
                    rest,
                ));
            }
            start = at + 1;
        } else {
            let line = String::from_str(text.substring_char(start, n));
            lines.push(line);
            proof {
                assert(line@ =~= rest);
                assert(lines.deep_view() =~= before.push(line@));
                assert(text@.skip(n as int) =~= Seq::<char>::empty());
                assert(lines.deep_view() + split_lines(text@.skip(n as int)) =~= before
                    + split_lines(rest));
            }
            start = n;
        }
    }
    proof {
        assert(text@.skip(n as int) =~= Seq::<char>::empty());
        assert(lines.deep_view() + split_lines(text@.skip(n as int)) =~= lines.deep_view());
    }
    lines
}

/// The text of a file that holds `lines`: each line followed by a line feed.
pub fn join_lines_of(lines: &Vec<String>) -> (text: String)
    ensures
        text@ == join_lines(lines.deep_view()),
{
    let mut text = String::new();
    let mut i: usize = 0;
    proof {
        reveal_strlit("\n");
        assert(lines.deep_view().take(0) =~= Seq::empty());
    }
    while i < lines.len()
        invariant
            i <= lines.len(),
            "\n"@ == seq!['\n'],
            text@ == join_lines(lines.deep_view().take(i as int)),
        decreases lines.len() - i,
    {
        text.append(lines[i].as_str());
        text.append("\n");
        proof {
            let upto = lines.deep_view().take(i + 1);
            assert(upto.drop_last() =~= lines.deep_view().take(i as int));
            assert(upto.last() == lines[i as int]@);
        }
        i += 1;
    }
    assert(lines.deep_view().take(i as int) =~= lines.deep_view());
    text
}

} // verus!
