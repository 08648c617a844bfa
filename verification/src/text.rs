//! Characters, runs of characters and line separators: the vocabulary in which
//! the grammar of a task file and the layout of a Makefile are stated.

use vstd::prelude::*;

verus! {

broadcast use vstd::string::group_string_axioms;

/// The characters a task file is written in: ASCII from the space to the tilde.
/// A tab, a line break and anything outside ASCII are not among them.
pub open spec fn is_printable(c: char) -> bool {
    0x20 <= c as u32 <= 0x7e
}

/// The characters that trimming removes: those with the Unicode property
/// `White_Space`.
pub open spec fn is_whitespace(c: char) -> bool {
    let u = c as u32;
    ||| 0x09 <= u <= 0x0d
    ||| u == 0x20
    ||| u == 0x85
    ||| u == 0xa0
    ||| u == 0x1680
    ||| 0x2000 <= u <= 0x200a
    ||| u == 0x2028
    ||| u == 0x2029
    ||| u == 0x202f
    ||| u == 0x205f
    ||| u == 0x3000
}

/// Where the run of printable characters that starts at `from` ends: the index
/// of the first character at or after `from` that is not printable, or the
/// length of `s`.
pub open spec fn run_end(s: Seq<char>, from: int) -> int
    decreases s.len() - from,
{
    if 0 <= from < s.len() && is_printable(s[from]) {
        run_end(s, from + 1)
    } else {
        from
    }
}

/// The length of the line separator that stands at `at`: 1 for a line feed,
/// 2 for a carriage return followed by a line feed, 0 where there is neither.
pub open spec fn separator_len(s: Seq<char>, at: int) -> int {
    if 0 <= at < s.len() && s[at] == '\n' {
        1
    } else if 0 <= at && at + 1 < s.len() && s[at] == '\r' && s[at + 1] == '\n' {
        2
    } else {
        0
    }
}

/// The index of the first character of `s[from..to)` that is not whitespace,
/// or `to` where all of them are.
pub open spec fn trim_start(s: Seq<char>, from: int, to: int) -> int
    decreases to - from,
{
    if 0 <= from < to <= s.len() && is_whitespace(s[from]) {
        trim_start(s, from + 1, to)
    } else {
        from
    }
}

/// The index just behind the last character of `s[from..to)` that is not
/// whitespace, or `from` where all of them are.
pub open spec fn trim_end(s: Seq<char>, from: int, to: int) -> int
    decreases to - from,
{
    if 0 <= from < to <= s.len() && is_whitespace(s[to - 1]) {
        trim_end(s, from, to - 1)
    } else {
        to
    }
}

/// `s` without the whitespace at its two ends.
pub open spec fn trimmed(s: Seq<char>) -> Seq<char> {
    let start = trim_start(s, 0, s.len() as int);
    s.subrange(start, trim_end(s, start, s.len() as int))
}

/// The texts that a vector of strings holds, in its order.
pub open spec fn texts(v: Seq<String>) -> Seq<Seq<char>> {
    Seq::new(v.len(), |i: int| v[i]@)
}

/// The parts written one behind the other, in their order.
pub open spec fn joined(parts: Seq<Seq<char>>) -> Seq<char>
    decreases parts.len(),
{
    if parts.len() == 0 {
        Seq::empty()
    } else {
        joined(parts.drop_last()) + parts.last()
    }
}

/// Where the part with index `k` starts in `joined(parts)`: the lengths of the
/// parts before it, added up.
pub open spec fn part_start(parts: Seq<Seq<char>>, k: int) -> int
    decreases k,
{
    if k <= 0 {
        0
    } else {
        part_start(parts, k - 1) + parts[k - 1].len()
    }
}

/// Each part stands in `joined(parts)` as it is, from its start to the start
/// of the next.
pub proof fn lemma_joined_part(parts: Seq<Seq<char>>, k: int)
    requires
        0 <= k < parts.len(),
    ensures
        0 <= part_start(parts, k),
        part_start(parts, k + 1) == part_start(parts, k) + parts[k].len(),
        part_start(parts, k + 1) <= joined(parts).len(),
        joined(parts).subrange(part_start(parts, k), part_start(parts, k + 1)) == parts[k],
    decreases parts.len(),
{
    let front = parts.drop_last();
    lemma_joined_len(front);
    lemma_part_start_prefix(parts, front, front.len() as int);
    if k == parts.len() - 1 {
        assert(joined(parts).subrange(part_start(parts, k), part_start(parts, k + 1)) =~= parts[k]);
    } else {
        lemma_joined_part(front, k);
        lemma_part_start_prefix(parts, front, k + 1);
        lemma_part_start_prefix(parts, front, k);
        assert(front[k] == parts[k]);
        assert(joined(parts).subrange(part_start(parts, k), part_start(parts, k + 1)) =~= joined(
            front,
        ).subrange(part_start(front, k), part_start(front, k + 1)));
    }
}

/// The parts start in `joined(parts)` in their order.
pub proof fn lemma_part_starts_ascend(parts: Seq<Seq<char>>, j: int, k: int)
    requires
        0 <= j <= k <= parts.len(),
    ensures
        0 <= part_start(parts, j) <= part_start(parts, k),
        part_start(parts, parts.len() as int) == joined(parts).len(),
    decreases k - j,
{
    lemma_joined_len(parts);
    if j < k {
        lemma_part_starts_ascend(parts, j, k - 1);
    } else {
        lemma_part_start_nonnegative(parts, j);
    }
}

/// No part starts before the start.
proof fn lemma_part_start_nonnegative(parts: Seq<Seq<char>>, k: int)
    ensures
        0 <= part_start(parts, k),
    decreases k,
{
    if k > 0 {
        lemma_part_start_nonnegative(parts, k - 1);
    }
}

/// The parts together are as long as their lengths added up.
proof fn lemma_joined_len(parts: Seq<Seq<char>>)
    ensures
        joined(parts).len() == part_start(parts, parts.len() as int),
    decreases parts.len(),
{
    if parts.len() > 0 {
        let front = parts.drop_last();
        lemma_joined_len(front);
        lemma_part_start_prefix(parts, front, front.len() as int);
    }
}

/// Where a part starts depends on the parts before it alone.
proof fn lemma_part_start_prefix(parts: Seq<Seq<char>>, front: Seq<Seq<char>>, k: int)
    requires
        front.len() <= parts.len(),
        forall|i: int| 0 <= i < front.len() ==> front[i] == parts[i],
        k <= front.len(),
    ensures
        part_start(front, k) == part_start(parts, k),
    decreases k,
{
    if k > 0 {
        lemma_part_start_prefix(parts, front, k - 1);
    }
}

/// Joining one part more appends that part.
pub proof fn lemma_joined_take(parts: Seq<Seq<char>>, k: int)
    requires
        0 <= k < parts.len(),
    ensures
        joined(parts.take(k + 1)) == joined(parts.take(k)) + parts[k],
{
    assert(parts.take(k + 1).drop_last() =~= parts.take(k));
}

/// A run of printable characters lies inside the text, holds printable
/// characters only, and cannot be extended to the right.
pub proof fn lemma_run_end(s: Seq<char>, from: int)
    requires
        0 <= from <= s.len(),
    ensures
        from <= run_end(s, from) <= s.len(),
        forall|k: int| from <= k < run_end(s, from) ==> is_printable(#[trigger] s[k]),
        run_end(s, from) < s.len() ==> !is_printable(s[run_end(s, from)]),
        from < s.len() && is_printable(s[from]) ==> from < run_end(s, from),
    decreases s.len() - from,
{
    if from < s.len() && is_printable(s[from]) {
        lemma_run_end(s, from + 1);
    }
}

/// What trimming leaves of `s[from..to)`: the removed ends are whitespace, and
/// what is left neither starts nor ends with whitespace.
pub proof fn lemma_trim_range(s: Seq<char>, from: int, to: int)
    requires
        0 <= from <= to <= s.len(),
    ensures
        from <= trim_start(s, from, to) <= trim_end(s, trim_start(s, from, to), to) <= to,
        forall|k: int| from <= k < trim_start(s, from, to) ==> is_whitespace(#[trigger] s[k]),
        forall|k: int|
            trim_end(s, trim_start(s, from, to), to) <= k < to ==> is_whitespace(#[trigger] s[k]),
        trim_start(s, from, to) < trim_end(s, trim_start(s, from, to), to) ==> {
            &&& !is_whitespace(s[trim_start(s, from, to)])
            &&& !is_whitespace(s[trim_end(s, trim_start(s, from, to), to) - 1])
        },
{
    lemma_trim_start(s, from, to);
    lemma_trim_end(s, trim_start(s, from, to), to);
}

/// What `trim_start` skips is whitespace, and it stops at the first character
/// that is not.
proof fn lemma_trim_start(s: Seq<char>, from: int, to: int)
    requires
        0 <= from <= to <= s.len(),
    ensures
        from <= trim_start(s, from, to) <= to,
        forall|k: int| from <= k < trim_start(s, from, to) ==> is_whitespace(#[trigger] s[k]),
        trim_start(s, from, to) < to ==> !is_whitespace(s[trim_start(s, from, to)]),
    decreases to - from,
{
    if from < to && is_whitespace(s[from]) {
        lemma_trim_start(s, from + 1, to);
    }
}

/// What `trim_end` drops is whitespace, and it stops behind the last character
/// that is not.
proof fn lemma_trim_end(s: Seq<char>, from: int, to: int)
    requires
        0 <= from <= to <= s.len(),
    ensures
        from <= trim_end(s, from, to) <= to,
        forall|k: int| trim_end(s, from, to) <= k < to ==> is_whitespace(#[trigger] s[k]),
        from < trim_end(s, from, to) ==> !is_whitespace(s[trim_end(s, from, to) - 1]),
    decreases to - from,
{
    if from < to && is_whitespace(s[to - 1]) {
        lemma_trim_end(s, from, to - 1);
    }
}

/// Trimming a part of a text is trimming inside the bounds of that part.
pub proof fn lemma_trimmed_subrange(s: Seq<char>, from: int, to: int)
    requires
        0 <= from <= to <= s.len(),
    ensures
        trimmed(s.subrange(from, to)) == s.subrange(
            trim_start(s, from, to),
            trim_end(s, trim_start(s, from, to), to),
        ),
{
    let part = s.subrange(from, to);
    let n = to - from;
    lemma_trim_start_shift(s, from, to, from);
    let a = trim_start(s, from, to);
    lemma_trim_start(s, from, to);
    lemma_trim_end_shift(s, from, a, to);
    lemma_trim_end(s, a, to);
    assert(trim_start(part, 0, n) == a - from);
    assert(trim_end(part, a - from, n) == trim_end(s, a, to) - from);
    assert(part.subrange(a - from, trim_end(s, a, to) - from) =~= s.subrange(
        a,
        trim_end(s, a, to),
    ));
}

/// `trim_start` in a part of a text, counted from the start of the part.
proof fn lemma_trim_start_shift(s: Seq<char>, base: int, to: int, at: int)
    requires
        0 <= base <= at <= to <= s.len(),
    ensures
        trim_start(s.subrange(base, to), at - base, to - base) == trim_start(s, at, to) - base,
    decreases to - at,
{
    let part = s.subrange(base, to);
    if at < to {
        assert(part[at - base] == s[at]);
        if is_whitespace(s[at]) {
            lemma_trim_start_shift(s, base, to, at + 1);
        }
    }
}

/// `trim_end` in a part of a text, counted from the start of the part.
proof fn lemma_trim_end_shift(s: Seq<char>, base: int, from: int, to: int)
    requires
        0 <= base <= from <= to <= s.len(),
    ensures
        forall|top: int|
            to <= top <= s.len() ==> #[trigger] trim_end(
                s.subrange(base, top),
                from - base,
                to - base,
            ) == trim_end(s, from, to) - base,
    decreases to - from,
{
    assert forall|top: int| to <= top <= s.len() implies #[trigger] trim_end(
        s.subrange(base, top),
        from - base,
        to - base,
    ) == trim_end(s, from, to) - base by {
        let part = s.subrange(base, top);
        if from < to {
            assert(part[to - 1 - base] == s[to - 1]);
            if is_whitespace(s[to - 1]) {
                lemma_trim_end_shift(s, base, from, to - 1);
                assert(trim_end(part, from - base, to - 1 - base) == trim_end(s, from, to - 1)
                    - base);
            }
        }
    }
}

/// Whether `c` is printable.
pub fn printable(c: char) -> (r: bool)
    ensures
        r == is_printable(c),
{
    let u: u32 = c as u32;
    0x20 <= u && u <= 0x7e
}

/// Whether trimming removes `c`.
pub fn whitespace(c: char) -> (r: bool)
    ensures
        r == is_whitespace(c),
{
    let u: u32 = c as u32;
    (0x09 <= u && u <= 0x0d) || u == 0x20 || u == 0x85 || u == 0xa0 || u == 0x1680 || (0x2000 <= u
        && u <= 0x200a) || u == 0x2028 || u == 0x2029 || u == 0x202f || u == 0x205f || u
        == 0x3000
}

/// The characters of `text`, one element each.
pub fn chars_of(text: &str) -> (chars: Vec<char>)
    ensures
        chars@ == text@,
{
    let mut chars: Vec<char> = Vec::new();
    for c in it: text.chars()
        invariant
            chars@ == it.seq().take(it.index() as int),
            it.seq() == text@,
    {
        chars.push(c);
        assert(it.seq().take(it.index() + 1) =~= it.seq().take(it.index() as int).push(c));
    }
    assert(chars@ =~= text@);
    chars
}

/// The end of the run of printable characters that starts at `from`.
pub fn scan_run(chars: &Vec<char>, from: usize) -> (end: usize)
    requires
        from <= chars.len(),
    ensures
        end == run_end(chars@, from as int),
        from <= end <= chars.len(),
{
    let mut end: usize = from;
    while end < chars.len() && printable(chars[end])
        invariant
            from <= end <= chars.len(),
            run_end(chars@, from as int) == run_end(chars@, end as int),
        decreases chars.len() - end,
    {
        end = end + 1;
    }
    end
}

/// The length of the line separator at `at`, 0 where none stands there.
pub fn separator_at(chars: &Vec<char>, at: usize) -> (n: usize)
    requires
        at <= chars.len(),
    ensures
        n == separator_len(chars@, at as int),
        at + n <= chars.len(),
{
    if at < chars.len() && chars[at] == '\n' {
        1
    } else if at < chars.len() && chars.len() - at > 1 && chars[at] == '\r' && chars[at + 1]
        == '\n' {
        2
    } else {
        0
    }
}

/// The bounds of what trimming leaves of `chars[from..to)`.
pub fn trim_range(chars: &Vec<char>, from: usize, to: usize) -> (bounds: (usize, usize))
    requires
        from <= to <= chars.len(),
    ensures
        bounds.0 == trim_start(chars@, from as int, to as int),
        bounds.1 == trim_end(chars@, bounds.0 as int, to as int),
        from <= bounds.0 <= bounds.1 <= to,
{
    let mut start: usize = from;
    while start < to && whitespace(chars[start])
        invariant
            from <= start <= to <= chars.len(),
            trim_start(chars@, from as int, to as int) == trim_start(
                chars@,
                start as int,
                to as int,
            ),
        decreases to - start,
    {
        start = start + 1;
    }
    let mut end: usize = to;
    while start < end && whitespace(chars[end - 1])
        invariant
            start <= end <= to <= chars.len(),
            trim_end(chars@, start as int, to as int) == trim_end(
                chars@,
                start as int,
                end as int,
            ),
        decreases end - start,
    {
        end = end - 1;
    }
    (start, end)
}

/// A copy of `text` without the whitespace at its two ends.
pub fn trim(text: &str) -> (r: String)
    ensures
        r@ == trimmed(text@),
{
    let chars = chars_of(text);
    let (start, end) = trim_range(&chars, 0, chars.len());
    copy_range(text, start, end)
}

/// A copy of the characters of `text` from index `from` up to, not including,
/// index `to`.
pub fn copy_range(text: &str, from: usize, to: usize) -> (r: String)
    requires
        from <= to <= text@.len(),
    ensures
        r@ == text@.subrange(from as int, to as int),
{
    String::from_str(text.substring_char(from, to))
}

/// Whether `text` is, character for character, `other`.
pub fn same_text(text: &str, other: &str) -> (r: bool)
    ensures
        r == (text@ == other@),
{
    let a = chars_of(text);
    let b = chars_of(other);
    if a.len() != b.len() {
        return false;
    }
    let mut i: usize = 0;
    while i < a.len()
        invariant
            a@ == text@,
            b@ == other@,
            a.len() == b.len(),
            i <= a.len(),
            forall|k: int| 0 <= k < i ==> a@[k] == b@[k],
        decreases a.len() - i,
    {
        if a[i] != b[i] {
            return false;
        }
        i = i + 1;
    }
    assert(a@ =~= b@);
    true
}

} // verus!
