//! Include directives: the word `include`, one space, and a target that runs to
//! the end of the printable text.

use crate::text::{
    chars_of, copy_range, is_printable, lemma_run_end, printable, run_end, scan_run, texts,
};
use vstd::prelude::*;

verus! {

/// The word that opens a directive, with the space behind it.
pub open spec fn keyword() -> Seq<char> {
    seq!['i', 'n', 'c', 'l', 'u', 'd', 'e', ' ']
}

/// Whether a directive starts at `at`: the keyword stands there, and behind it
/// at least one printable character. It may start anywhere in a line.
pub open spec fn directive_at(s: Seq<char>, at: int) -> bool {
    &&& 0 <= at
    &&& at + 8 < s.len()
    &&& s.subrange(at, at + 8) == keyword()
    &&& is_printable(s[at + 8])
}

/// Where the directive that starts at `at` ends: where the run of printable
/// characters behind the keyword ends.
pub open spec fn target_end(s: Seq<char>, at: int) -> int {
    run_end(s, at + 8)
}

/// The target of the directive that starts at `at`: all that is printable
/// behind the keyword, as it stands.
pub open spec fn target_at(s: Seq<char>, at: int) -> Seq<char> {
    s.subrange(at + 8, target_end(s, at))
}

/// The places at or after `from` where a directive is read, from left to
/// right: the leftmost one first, then the leftmost one behind its end, and so
/// on. A keyword inside the target of a directive opens no directive of its own.
pub open spec fn directives_from(s: Seq<char>, from: int) -> Seq<int>
    decreases s.len() - from,
    via directives_from_decreases
{
    if from < 0 || from >= s.len() {
        Seq::empty()
    } else if directive_at(s, from) {
        seq![from] + directives_from(s, target_end(s, from))
    } else {
        directives_from(s, from + 1)
    }
}

#[via_fn]
proof fn directives_from_decreases(s: Seq<char>, from: int) {
    if 0 <= from < s.len() && directive_at(s, from) {
        lemma_run_end(s, from + 8);
    }
}

/// The targets of the directives of `s`, in the order in which they stand.
pub open spec fn include_targets(s: Seq<char>) -> Seq<Seq<char>> {
    let places = directives_from(s, 0);
    Seq::new(places.len(), |k: int| target_at(s, places[k]))
}

/// The directives that are read stand in the text from left to right and do
/// not overlap: each is a directive, none starts before `from`, and each starts
/// at or behind the end of the one before it.
pub proof fn lemma_directives_in_order(s: Seq<char>, from: int)
    requires
        0 <= from,
    ensures
        forall|k: int|
            0 <= k < directives_from(s, from).len() ==> {
                &&& from <= (#[trigger] directives_from(s, from)[k])
                &&& directive_at(s, directives_from(s, from)[k])
                &&& target_end(s, directives_from(s, from)[k]) <= s.len()
            },
        forall|j: int, k: int|
            0 <= j < k < directives_from(s, from).len() ==> target_end(
                s,
                #[trigger] directives_from(s, from)[j],
            ) <= #[trigger] directives_from(s, from)[k],
    decreases s.len() - from,
{
    if from < s.len() {
        if directive_at(s, from) {
            let next = target_end(s, from);
            lemma_run_end(s, from + 8);
            lemma_directives_in_order(s, next);
            let rest = directives_from(s, next);
            let all = directives_from(s, from);
            assert(all =~= seq![from] + rest);
            assert forall|k: int| 0 <= k < all.len() implies {
                &&& from <= (#[trigger] all[k])
                &&& directive_at(s, all[k])
                &&& target_end(s, all[k]) <= s.len()
            } by {
                if k > 0 {
                    assert(all[k] == rest[k - 1]);
                }
            }
            assert forall|j: int, k: int| 0 <= j < k < all.len() implies target_end(
                s,
                #[trigger] all[j],
            ) <= #[trigger] all[k] by {
                assert(all[k] == rest[k - 1]);
                if j > 0 {
                    assert(all[j] == rest[j - 1]);
                }
            }
        } else {
            lemma_directives_in_order(s, from + 1);
            assert(directives_from(s, from) == directives_from(s, from + 1));
        }
    } else {
        assert(directives_from(s, from).len() == 0);
    }
}

/// No directive is passed over: wherever the keyword stands before a printable
/// character at or after `from`, a directive is read there, or the place lies
/// inside a directive that was read further left.
pub proof fn lemma_directives_complete(s: Seq<char>, from: int, at: int)
    requires
        0 <= from <= at,
        directive_at(s, at),
    ensures
        exists|k: int|
            0 <= k < directives_from(s, from).len() && (#[trigger] directives_from(s, from)[k])
                <= at < target_end(s, directives_from(s, from)[k]),
    decreases s.len() - from,
{
    let all = directives_from(s, from);
    if directive_at(s, from) {
        let next = target_end(s, from);
        lemma_run_end(s, from + 8);
        assert(all =~= seq![from] + directives_from(s, next));
        if at < next {
            assert(all[0] == from);
        } else {
            lemma_directives_complete(s, next, at);
            let k = choose|k: int|
                0 <= k < directives_from(s, next).len() && (#[trigger] directives_from(s, next)[k])
                    <= at < target_end(s, directives_from(s, next)[k]);
            assert(all[k + 1] == directives_from(s, next)[k]);
        }
    } else {
        assert(from != at);
        lemma_directives_complete(s, from + 1, at);
    }
}

/// Whether a directive starts at `at`.
fn directive_here(chars: &Vec<char>, at: usize) -> (r: bool)
    requires
        at < chars.len(),
    ensures
        r == directive_at(chars@, at as int),
{
    if chars.len() - at <= 8 {
        return false;
    }
    let word = chars[at] == 'i' && chars[at + 1] == 'n' && chars[at + 2] == 'c' && chars[at + 3]
        == 'l' && chars[at + 4] == 'u' && chars[at + 5] == 'd' && chars[at + 6] == 'e' && chars[at
        + 7] == ' ';
    proof {
        let part = chars@.subrange(at as int, at + 8);
        assert(forall|k: int| 0 <= k < 8 ==> part[k] == chars@[at + k]);
        if word {
            assert(part =~= keyword());
        } else {
            assert(part[0] == chars@[at + 0]);
            assert(part[1] == chars@[at + 1]);
            assert(part[2] == chars@[at + 2]);
            assert(part[3] == chars@[at + 3]);
            assert(part[4] == chars@[at + 4]);
            assert(part[5] == chars@[at + 5]);
            assert(part[6] == chars@[at + 6]);
            assert(part[7] == chars@[at + 7]);
            assert(part != keyword());
        }
    }
    word && printable(chars[at + 8])
}

/// The targets of the include directives of `content`, in the order in which
/// they stand. A text without a directive gives an empty vector.
pub fn includes(content: &str) -> (targets: Vec<String>)
    ensures
        texts(targets@) == include_targets(content@),
        targets@.len() == include_targets(content@).len(),
{
    let chars = chars_of(content);
    includes_of(content, &chars)
}

/// As [`includes`], for a text whose characters are at hand.
pub(crate) fn includes_of(content: &str, chars: &Vec<char>) -> (targets: Vec<String>)
    requires
        chars@ == content@,
    ensures
        texts(targets@) == include_targets(content@),
        targets@.len() == include_targets(content@).len(),
{
    let ghost s = chars@;
    let mut targets: Vec<String> = Vec::new();
    let ghost mut seen: Seq<int> = Seq::empty();
    let mut at: usize = 0;
    while at < chars.len()
        invariant
            s == chars@,
            s == content@,
            at <= chars.len(),
            directives_from(s, 0) == seen + directives_from(s, at as int),
            targets@.len() == seen.len(),
            forall|k: int| 0 <= k < seen.len() ==> (#[trigger] targets@[k])@ == target_at(s, seen[k]),
        decreases chars.len() - at,
    {
        if directive_here(chars, at) {
            let end = scan_run(chars, at + 8);
            proof {
                lemma_run_end(s, at + 8);
                assert(seen + (seq![at as int] + directives_from(s, end as int)) =~= seen.push(
                    at as int,
                ) + directives_from(s, end as int));
                seen = seen.push(at as int);
            }
            targets.push(copy_range(content, at + 8, end));
            at = end;
        } else {
            at = at + 1;
        }
    }
    proof {
        assert(directives_from(s, 0) =~= seen);
        assert(texts(targets@) =~= include_targets(s));
    }
    targets
}

} // verus!
