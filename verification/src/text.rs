//! Sequences of characters: white space, trimming, searching and comparing.
//!
//! Every contract of this crate speaks of a string through its view, a
//! `Seq<char>`. The functions here are the vocabulary the other modules share.

use vstd::prelude::*;
use vstd::string::*;
use vstd::utf8::*;

verus! {

/// White space: the code points that carry the Unicode property `White_Space`.
pub open spec fn is_space(c: char) -> bool {
    let n = c as u32;
    ||| 0x09 <= n <= 0x0d
    ||| n == 0x20
    ||| n == 0x85
    ||| n == 0xa0
    ||| n == 0x1680
    ||| 0x2000 <= n <= 0x200a
    ||| n == 0x2028
    ||| n == 0x2029
    ||| n == 0x202f
    ||| n == 0x205f
    ||| n == 0x3000
}

/// `s` without its leading white space.
pub open spec fn trim_start(s: Seq<char>) -> Seq<char>
    decreases s.len(),
{
    if s.len() > 0 && is_space(s[0]) {
        trim_start(s.drop_first())
    } else {
        s
    }
}

/// `s` without its trailing white space.
pub open spec fn trim_end(s: Seq<char>) -> Seq<char>
    decreases s.len(),
{
    if s.len() > 0 && is_space(s.last()) {
        trim_end(s.drop_last())
    } else {
        s
    }
}

/// `s` without the white space on either side.
pub open spec fn trimmed(s: Seq<char>) -> Seq<char> {
    trim_end(trim_start(s))
}

/// Every character of `s` is white space.
pub open spec fn is_blank(s: Seq<char>) -> bool {
    forall|i: int| 0 <= i < s.len() ==> is_space(#[trigger] s[i])
}

/// Trimming would leave `s` as it is: it neither starts nor ends with white space.
pub open spec fn is_trimmed(s: Seq<char>) -> bool {
    s.len() > 0 ==> !is_space(s[0]) && !is_space(s.last())
}

/// The index of the first `c` in `s`, or `s.len()` where `s` holds none.
pub open spec fn position<A>(s: Seq<A>, c: A) -> int
    decreases s.len(),
{
    if s.len() == 0 {
        0
    } else if s[0] == c {
        0
    } else {
        1 + position(s.drop_first(), c)
    }
}

/// `trim_start` cuts at the first character that is not white space.
pub proof fn lemma_trim_start_at(s: Seq<char>, a: int)
    requires
        0 <= a <= s.len(),
        forall|j: int| 0 <= j < a ==> is_space(#[trigger] s[j]),
        a < s.len() ==> !is_space(s[a]),
    ensures
        trim_start(s) == s.subrange(a, s.len() as int),
    decreases a,
{
    if a == 0 {
        assert(s.subrange(0, s.len() as int) =~= s);
    } else {
        let rest = s.drop_first();
        assert(is_space(s[0]));
        assert forall|j: int| 0 <= j < a - 1 implies is_space(#[trigger] rest[j]) by {
            assert(rest[j] == s[j + 1]);
        }
        lemma_trim_start_at(rest, a - 1);
        assert(rest.subrange(a - 1, rest.len() as int) =~= s.subrange(a, s.len() as int));
    }
}

/// `trim_end` cuts behind the last character that is not white space.
pub proof fn lemma_trim_end_at(s: Seq<char>, b: int)
    requires
        0 <= b <= s.len(),
        forall|j: int| b <= j < s.len() ==> is_space(#[trigger] s[j]),
        0 < b ==> !is_space(s[b - 1]),
    ensures
        trim_end(s) == s.subrange(0, b),
    decreases s.len() - b,
{
    if b == s.len() {
        assert(s.subrange(0, b) =~= s);
    } else {
        let rest = s.drop_last();
        assert(is_space(s.last()));
        assert forall|j: int| b <= j < rest.len() implies is_space(#[trigger] rest[j]) by {
            assert(rest[j] == s[j]);
        }
        lemma_trim_end_at(rest, b);
        assert(rest.subrange(0, b) =~= s.subrange(0, b));
    }
}

/// Where trimming cuts: `trimmed(s)` is the stretch of `s` from `a` to `b`
/// when only white space lies outside it and none at its two ends.
pub proof fn lemma_trimmed_at(s: Seq<char>, a: int, b: int)
    requires
        0 <= a <= b <= s.len(),
        forall|j: int| 0 <= j < a ==> is_space(#[trigger] s[j]),
        forall|j: int| b <= j < s.len() ==> is_space(#[trigger] s[j]),
        a < b ==> !is_space(s[a]) && !is_space(s[b - 1]),
        a == b ==> a == s.len(),
    ensures
        trimmed(s) == s.subrange(a, b),
{
    lemma_trim_start_at(s, a);
    let t = s.subrange(a, s.len() as int);
    assert forall|j: int| b - a <= j < t.len() implies is_space(#[trigger] t[j]) by {
        assert(t[j] == s[j + a]);
    }
    lemma_trim_end_at(t, b - a);
    assert(t.subrange(0, b - a) =~= s.subrange(a, b));
}

/// Where `trim_start` cuts `s`: behind its leading white space.
pub proof fn lemma_trim_start_cut(s: Seq<char>) -> (a: int)
    ensures
        0 <= a <= s.len(),
        forall|j: int| 0 <= j < a ==> is_space(#[trigger] s[j]),
        a < s.len() ==> !is_space(s[a]),
        trim_start(s) == s.subrange(a, s.len() as int),
    decreases s.len(),
{
    if s.len() > 0 && is_space(s[0]) {
        let rest = s.drop_first();
        let a = lemma_trim_start_cut(rest);
        assert forall|j: int| 0 <= j < a + 1 implies is_space(#[trigger] s[j]) by {
            if j > 0 {
                assert(s[j] == rest[j - 1]);
            }
        }
        if a + 1 < s.len() {
            assert(s[a + 1] == rest[a]);
        }
        lemma_trim_start_at(s, a + 1);
        a + 1
    } else {
        lemma_trim_start_at(s, 0);
        0
    }
}

/// Where `trim_end` cuts `s`: before its trailing white space.
pub proof fn lemma_trim_end_cut(s: Seq<char>) -> (b: int)
    ensures
        0 <= b <= s.len(),
        forall|j: int| b <= j < s.len() ==> is_space(#[trigger] s[j]),
        0 < b ==> !is_space(s[b - 1]),
        trim_end(s) == s.subrange(0, b),
    decreases s.len(),
{
    if s.len() > 0 && is_space(s.last()) {
        let rest = s.drop_last();
        let b = lemma_trim_end_cut(rest);
        assert forall|j: int| b <= j < s.len() implies is_space(#[trigger] s[j]) by {
            if j < rest.len() {
                assert(s[j] == rest[j]);
            }
        }
        if 0 < b {
            assert(s[b - 1] == rest[b - 1]);
        }
        lemma_trim_end_at(s, b);
        b
    } else {
        lemma_trim_end_at(s, s.len() as int);
        s.len() as int
    }
}

/// Where `trimmed` cuts `s`: the bounds of the stretch that is left, which has
/// only white space outside it and none at its two ends. A stretch that is
/// empty lies at the end of `s`.
pub proof fn lemma_trimmed_cut(s: Seq<char>) -> (cut: (int, int))
    ensures
        0 <= cut.0 <= cut.1 <= s.len(),
        trimmed(s) == s.subrange(cut.0, cut.1),
        forall|j: int| 0 <= j < cut.0 ==> is_space(#[trigger] s[j]),
        forall|j: int| cut.1 <= j < s.len() ==> is_space(#[trigger] s[j]),
        cut.0 < cut.1 ==> !is_space(s[cut.0]) && !is_space(s[cut.1 - 1]),
        cut.0 == cut.1 ==> cut.0 == s.len(),
{
    let a = lemma_trim_start_cut(s);
    let t = s.subrange(a, s.len() as int);
    let b = lemma_trim_end_cut(t);
    if a < s.len() {
        assert(t[0] == s[a]);
    }
    assert forall|j: int| a + b <= j < s.len() implies is_space(#[trigger] s[j]) by {
        assert(s[j] == t[j - a]);
    }
    if 0 < b {
        assert(t[b - 1] == s[a + b - 1]);
    }
    assert(t.subrange(0, b) =~= s.subrange(a, a + b));
    (a, a + b)
}

/// What is left after trimming is trimmed.
pub proof fn lemma_trimmed_is_trimmed(s: Seq<char>)
    ensures
        is_trimmed(trimmed(s)),
{
    let cut = lemma_trimmed_cut(s);
    let t = trimmed(s);
    if t.len() > 0 {
        assert(t[0] == s[cut.0]);
        assert(t.last() == s[cut.1 - 1]);
    }
}

/// Trimming leaves a trimmed text as it is.
pub proof fn lemma_trimmed_fixed(s: Seq<char>)
    requires
        is_trimmed(s),
    ensures
        trimmed(s) == s,
{
    lemma_trimmed_at(s, 0, s.len() as int);
    assert(s.subrange(0, s.len() as int) =~= s);
}

/// White space before and behind a text is nothing to trimming.
pub proof fn lemma_trimmed_margin(lead: Seq<char>, s: Seq<char>, tail: Seq<char>)
    requires
        is_blank(lead),
        is_blank(tail),
    ensures
        trimmed(lead + s + tail) == trimmed(s),
{
    let whole = lead + s + tail;
    let cut = lemma_trimmed_cut(s);
    let shift = lead.len() as int;
    if cut.0 < cut.1 {
        assert forall|j: int| 0 <= j < shift + cut.0 implies is_space(#[trigger] whole[j]) by {
            if j < shift {
                assert(whole[j] == lead[j]);
            } else {
                assert(whole[j] == s[j - shift]);
            }
        }
        assert forall|j: int| shift + cut.1 <= j < whole.len() implies is_space(
            #[trigger] whole[j],
        ) by {
            if j < shift + s.len() {
                assert(whole[j] == s[j - shift]);
            } else {
                assert(whole[j] == tail[j - shift - s.len()]);
            }
        }
        assert(whole[shift + cut.0] == s[cut.0]);
        assert(whole[shift + cut.1 - 1] == s[cut.1 - 1]);
        lemma_trimmed_at(whole, shift + cut.0, shift + cut.1);
        assert(whole.subrange(shift + cut.0, shift + cut.1) =~= s.subrange(cut.0, cut.1));
    } else {
        assert forall|j: int| 0 <= j < whole.len() implies is_space(#[trigger] whole[j]) by {
            if j < shift {
                assert(whole[j] == lead[j]);
            } else if j < shift + s.len() {
                assert(whole[j] == s[j - shift]);
            } else {
                assert(whole[j] == tail[j - shift - s.len()]);
            }
        }
        lemma_trimmed_at(whole, whole.len() as int, whole.len() as int);
        assert(whole.subrange(whole.len() as int, whole.len() as int) =~= s.subrange(
            cut.0,
            cut.1,
        ));
    }
}

/// `position` is the one index that holds `c` and has no `c` before it.
pub proof fn lemma_position_at<A>(s: Seq<A>, c: A, i: int)
    requires
        0 <= i <= s.len(),
        forall|j: int| 0 <= j < i ==> #[trigger] s[j] != c,
        i < s.len() ==> s[i] == c,
    ensures
        position(s, c) == i,
    decreases i,
{
    if i > 0 {
        let rest = s.drop_first();
        assert(s[0] != c);
        assert forall|j: int| 0 <= j < i - 1 implies #[trigger] rest[j] != c by {
            assert(rest[j] == s[j + 1]);
        }
        lemma_position_at(rest, c, i - 1);
    }
}

/// What `position` finds: an index within `s`, or its length; `c` there, and no `c` before.
pub proof fn lemma_position<A>(s: Seq<A>, c: A)
    ensures
        0 <= position(s, c) <= s.len(),
        forall|j: int| 0 <= j < position(s, c) ==> #[trigger] s[j] != c,
        position(s, c) < s.len() ==> s[position(s, c)] == c,
        position(s, c) < s.len() <==> s.contains(c),
    decreases s.len(),
{
    if s.len() > 0 && s[0] != c {
        let rest = s.drop_first();
        lemma_position(rest, c);
        assert forall|j: int| 0 <= j < position(s, c) implies #[trigger] s[j] != c by {
            if j > 0 {
                assert(rest[j - 1] == s[j]);
            }
        }
        if position(s, c) < s.len() {
            assert(rest[position(rest, c)] == s[position(s, c)]);
        }
    }
    let p = position(s, c);
    if p < s.len() {
        assert(s[p] == c);
    }
    if s.contains(c) {
        let k = choose|k: int| 0 <= k < s.len() && s[k] == c;
        assert(p <= k);
    }
}

/// White space, decided by code point.
pub fn is_whitespace(c: char) -> (b: bool)
    ensures
        b == is_space(c),
{
    let n: u32 = c as u32;
    (0x09 <= n && n <= 0x0d) || n == 0x20 || n == 0x85 || n == 0xa0 || n == 0x1680 || (0x2000 <= n
        && n <= 0x200a) || n == 0x2028 || n == 0x2029 || n == 0x202f || n == 0x205f || n == 0x3000
}

/// The characters of `s`, one element each.
pub fn to_chars(s: &str) -> (chars: Vec<char>)
    ensures
        chars@ == s@,
{
    let mut chars: Vec<char> = Vec::new();
    for c in it: s.chars()
        invariant
            it.seq() == s@,
            chars@ =~= it.seq().take(it.index() as int),
    {
        chars.push(c);
    }
    assert(chars@ =~= s@);
    chars
}

/// The index of the first `c` among `chars[from..to]`, or `to` where there is none.
pub fn find_char(chars: &Vec<char>, from: usize, to: usize, c: char) -> (at: usize)
    requires
        from <= to <= chars.len(),
    ensures
        from <= at <= to,
        at - from == position(chars@.subrange(from as int, to as int), c),
{
    let mut at: usize = from;
    while at < to && chars[at] != c
        invariant
            from <= at <= to <= chars.len(),
            forall|j: int| from <= j < at ==> #[trigger] chars[j] != c,
        decreases to - at,
    {
        at += 1;
    }
    proof {
        lemma_position_at(chars@.subrange(from as int, to as int), c, at - from);
    }
    at
}

/// Where trimming `chars[from..to]` cuts: the bounds of what is left of it.
pub fn trim_range(chars: &Vec<char>, from: usize, to: usize) -> (cut: (usize, usize))
    requires
        from <= to <= chars.len(),
    ensures
        from <= cut.0 <= cut.1 <= to,
        chars@.subrange(cut.0 as int, cut.1 as int) == trimmed(
            chars@.subrange(from as int, to as int),
        ),
{
    let mut a: usize = from;
    while a < to && is_whitespace(chars[a])
        invariant
            from <= a <= to <= chars.len(),
            forall|j: int| from <= j < a ==> is_space(#[trigger] chars[j]),
        decreases to - a,
    {
        a += 1;
    }
    let mut b: usize = to;
    while b > a && is_whitespace(chars[b - 1])
        invariant
            a <= b <= to <= chars.len(),
            a < to ==> a < b && !is_space(chars[a as int]),
            forall|j: int| b <= j < to ==> is_space(#[trigger] chars[j]),
        decreases b,
    {
        b -= 1;
    }
    proof {
        let s = chars@.subrange(from as int, to as int);
        lemma_trimmed_at(s, a - from, b - from);
        assert(s.subrange(a - from, b - from) =~= chars@.subrange(a as int, b as int));
    }
    (a, b)
}

/// A copy of `s` without the white space on either side.
pub fn trim(s: &str) -> (t: String)
    ensures
        t@ == trimmed(s@),
{
    let chars = to_chars(s);
    let cut = trim_range(&chars, 0, chars.len());
    assert(chars@.subrange(0, chars.len() as int) =~= s@);
    String::from_str(s.substring_char(cut.0, cut.1))
}

/// Whether `a` and `b` hold the same characters.
pub fn str_eq(a: &str, b: &str) -> (same: bool)
    ensures
        same == (a@ == b@),
{
    let x = a.as_bytes();
    let y = b.as_bytes();
    proof {
        encode_utf8_decode_utf8(a@);
        encode_utf8_decode_utf8(b@);
    }
    if x.len() != y.len() {
        return false;
    }
    let mut i: usize = 0;
    while i < x.len()
        invariant
            i <= x.len(),
            x.len() == y.len(),
            forall|j: int| 0 <= j < i ==> x[j] == y[j],
            x@ == a.spec_bytes(),
            y@ == b.spec_bytes(),
        decreases x.len() - i,
    {
        if x[i] != y[i] {
            return false;
        }
        i += 1;
    }
    assert(x@ =~= y@);
    true
}

} // verus!
