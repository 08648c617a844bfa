//! Task blocks: a header in brackets, what the task depends on, a description
//! behind `#`, and the instructions, one to a line.

use crate::command::{command_views, Command, CommandView};
use crate::text::{
    chars_of, copy_range, is_printable, lemma_run_end, lemma_trimmed_subrange, printable,
    run_end, scan_run, separator_at, separator_len, texts, trim_range, trimmed,
};
use vstd::prelude::*;

verus! {

/// Where the parts of a block lie in the text, up to its first instruction.
/// The name starts behind the bracket that opens the block.
pub struct BlockHead {
    /// The index of the bracket that closes the name.
    pub name_end: int,
    /// Where the dependencies start, before they are trimmed.
    pub deps_start: int,
    /// Where the dependencies end, and a line separator stands.
    pub deps_end: int,
    /// The index of the `#` that opens the description.
    pub desc_start: int,
    /// Where the description ends, and a line separator stands.
    pub desc_end: int,
    /// Where the line behind the description starts.
    pub body_start: int,
}

/// The index of the last `]` in `s[from..to)`.
pub open spec fn last_close(s: Seq<char>, from: int, to: int) -> Option<int>
    decreases to - from,
{
    if from < 0 || to <= from || to > s.len() {
        None
    } else if s[to - 1] == ']' {
        Some(to - 1)
    } else {
        last_close(s, from, to - 1)
    }
}

/// Where the dependencies of a block lie, whose name closes at `close` in a
/// line whose printable text ends at `line_end`.
///
/// They are what is left of the header's line. Where nothing is left, they are
/// the next line, unless that line starts with `#`: then it is the description
/// and there are no dependencies. An empty next line stands for no
/// dependencies too. Dependencies never start with `#`.
pub open spec fn dependencies_span(s: Seq<char>, close: int, line_end: int) -> Option<(int, int)> {
    if close + 1 < line_end {
        if s[close + 1] == '#' {
            None
        } else {
            Some((close + 1, line_end))
        }
    } else {
        let next = line_end + separator_len(s, line_end);
        if separator_len(s, line_end) == 0 {
            None
        } else if next < s.len() && is_printable(s[next]) && s[next] != '#' {
            Some((next, run_end(s, next)))
        } else if separator_len(s, next) > 0 {
            Some((next, next))
        } else {
            Some((line_end, line_end))
        }
    }
}

/// The layout of the block that opens at `at`, if one does.
///
/// A block opens with `[`, a name of printable characters, and the last `]` of
/// that line. Then come the dependencies, a line separator, the description (a
/// `#` and at least one more printable character, up to the end of its line),
/// another line separator, and a line that starts with a printable character.
/// The header may start anywhere in its line.
pub open spec fn block_head(s: Seq<char>, at: int) -> Option<BlockHead> {
    if !(0 <= at < s.len() && s[at] == '[') {
        None
    } else {
        let line_end = run_end(s, at + 1);
        match last_close(s, at + 2, line_end) {
            None => None,
            Some(close) => match dependencies_span(s, close, line_end) {
                None => None,
                Some((deps_start, deps_end)) => {
                    let desc_start = deps_end + separator_len(s, deps_end);
                    let desc_end = run_end(s, desc_start + 1);
                    let body_start = desc_end + separator_len(s, desc_end);
                    if separator_len(s, deps_end) > 0 && desc_start + 1 < s.len() && s[desc_start]
                        == '#' && is_printable(s[desc_start + 1]) && separator_len(s, desc_end) > 0
                        && body_start < s.len() && is_printable(s[body_start]) {
                        Some(
                            BlockHead {
                                name_end: close,
                                deps_start,
                                deps_end,
                                desc_start,
                                desc_end,
                                body_start,
                            },
                        )
                    } else {
                        None
                    }
                },
            },
        }
    }
}

/// Whether an instruction starts at `at`, the start of a line: the line starts
/// with a printable character and opens no block.
pub open spec fn is_instruction_line(s: Seq<char>, at: int) -> bool {
    0 <= at < s.len() && is_printable(s[at]) && block_head(s, at) is None
}

/// Where the line behind the one that starts at `at` starts: behind the
/// printable text of this line and the line separator that follows it, if one
/// does.
pub open spec fn next_line(s: Seq<char>, at: int) -> int {
    run_end(s, at) + separator_len(s, run_end(s, at))
}

/// The instruction that starts at `at`: the printable text of the line, and the
/// carriage return behind it where the line ends in one and a line feed.
pub open spec fn instruction_at(s: Seq<char>, at: int) -> Seq<char> {
    if separator_len(s, run_end(s, at)) == 2 {
        s.subrange(at, run_end(s, at) + 1)
    } else {
        s.subrange(at, run_end(s, at))
    }
}

/// The instructions that start at `at`, the start of a line: this line and
/// those that follow it, up to an empty line, a line that opens a block, a
/// character that is not printable, or the end of the text.
pub open spec fn instructions_from(s: Seq<char>, at: int) -> Seq<Seq<char>>
    decreases s.len() - at,
    via instructions_from_decreases
{
    if is_instruction_line(s, at) {
        seq![instruction_at(s, at)] + instructions_from(s, next_line(s, at))
    } else {
        Seq::empty()
    }
}

#[via_fn]
proof fn instructions_from_decreases(s: Seq<char>, at: int) {
    if is_instruction_line(s, at) {
        lemma_run_end(s, at);
    }
}

/// Where the instructions that start at `at` end.
pub open spec fn body_end(s: Seq<char>, at: int) -> int
    decreases s.len() - at,
    via body_end_decreases
{
    if is_instruction_line(s, at) {
        body_end(s, next_line(s, at))
    } else {
        at
    }
}

#[via_fn]
proof fn body_end_decreases(s: Seq<char>, at: int) {
    if is_instruction_line(s, at) {
        lemma_run_end(s, at);
    }
}

/// Whether a block stands at `at`: one opens there, and the line behind its
/// description is an instruction. A header whose description is followed at
/// once by another block has no instruction, and is no block.
pub open spec fn block_at(s: Seq<char>, at: int) -> bool {
    match block_head(s, at) {
        Some(head) => is_instruction_line(s, head.body_start),
        None => false,
    }
}

/// Where the block that stands at `at` ends.
pub open spec fn block_end(s: Seq<char>, at: int) -> int {
    body_end(s, block_head(s, at)->0.body_start)
}

/// The command that the block at `at` describes: the name without its
/// brackets, the description with its marker, the dependencies trimmed, and
/// the instructions.
pub open spec fn command_at(s: Seq<char>, at: int) -> CommandView {
    let head = block_head(s, at)->0;
    CommandView {
        name: s.subrange(at + 1, head.name_end),
        description: s.subrange(head.desc_start, head.desc_end),
        prior_commands: trimmed(s.subrange(head.deps_start, head.deps_end)),
        instructions: instructions_from(s, head.body_start),
    }
}

/// The places at or after `from` where a block is read, from left to right:
/// the leftmost one first, then the leftmost one behind its end, and so on.
/// What is no block is passed over.
pub open spec fn blocks_from(s: Seq<char>, from: int) -> Seq<int>
    decreases s.len() - from,
    via blocks_from_decreases
{
    if from < 0 || from >= s.len() {
        Seq::empty()
    } else if block_at(s, from) {
        seq![from] + blocks_from(s, block_end(s, from))
    } else {
        blocks_from(s, from + 1)
    }
}

#[via_fn]
proof fn blocks_from_decreases(s: Seq<char>, from: int) {
    if 0 <= from < s.len() && block_at(s, from) {
        lemma_block_head(s, from);
        lemma_body(s, block_head(s, from)->0.body_start);
    }
}

/// The commands of `s`, in the order in which their blocks stand.
pub open spec fn commands_in(s: Seq<char>) -> Seq<CommandView> {
    let places = blocks_from(s, 0);
    Seq::new(places.len(), |k: int| command_at(s, places[k]))
}

/// How many blocks open at or after `from`: how many headers are followed, at
/// most one line of dependencies later, by a description and a line that is
/// not empty.
pub open spec fn openings_from(s: Seq<char>, from: int) -> nat
    decreases s.len() - from,
{
    if from < 0 || from >= s.len() {
        0
    } else if block_head(s, from) is Some {
        1 + openings_from(s, from + 1)
    } else {
        openings_from(s, from + 1)
    }
}

/// Whether the blocks of `s` stand apart: wherever a block opens, an
/// instruction follows its description, and no block opens inside it.
pub open spec fn blocks_apart(s: Seq<char>) -> bool {
    forall|at: int|
        (#[trigger] block_head(s, at)) is Some ==> {
            &&& block_at(s, at)
            &&& forall|inner: int|
                at < inner < block_end(s, at) ==> (#[trigger] block_head(s, inner)) is None
        }
}

/// The bracket that `last_close` finds lies in the range that was searched.
proof fn lemma_last_close(s: Seq<char>, from: int, to: int)
    requires
        0 <= from,
        to <= s.len(),
    ensures
        match last_close(s, from, to) {
            Some(close) => from <= close < to && s[close] == ']',
            None => true,
        },
    decreases to - from,
{
    if from < to && s[to - 1] != ']' {
        lemma_last_close(s, from, to - 1);
    }
}

/// The layout of a block: its parts follow one another inside the text, the
/// name is not empty and printable, the dependencies are printable, and the
/// description is a `#` and at least one more printable character.
pub proof fn lemma_block_head(s: Seq<char>, at: int)
    requires
        block_head(s, at) is Some,
    ensures
        ({
            let head = block_head(s, at)->0;
            &&& 0 <= at
            &&& s[at] == '['
            &&& at + 1 < head.name_end < head.deps_start <= head.deps_end < head.desc_start
            &&& head.desc_start + 1 < head.desc_end < head.body_start < s.len()
            &&& s[head.name_end] == ']'
            &&& forall|k: int| at < k < head.name_end ==> is_printable(#[trigger] s[k])
            &&& forall|k: int| head.deps_start <= k < head.deps_end ==> is_printable(#[trigger] s[k])
            &&& head.deps_start < head.deps_end ==> s[head.deps_start] != '#'
            &&& separator_len(s, head.deps_end) > 0
            &&& head.desc_start == head.deps_end + separator_len(s, head.deps_end)
            &&& s[head.desc_start] == '#'
            &&& forall|k: int| head.desc_start < k < head.desc_end ==> is_printable(#[trigger] s[k])
            &&& head.desc_end == run_end(s, head.desc_start + 1)
            &&& separator_len(s, head.desc_end) > 0
            &&& head.body_start == head.desc_end + separator_len(s, head.desc_end)
            &&& is_printable(s[head.body_start])
        }),
{
    let head = block_head(s, at)->0;
    let line_end = run_end(s, at + 1);
    lemma_run_end(s, at + 1);
    lemma_last_close(s, at + 2, line_end);
    let close = last_close(s, at + 2, line_end)->0;
    assert(head.name_end == close);
    if close + 1 >= line_end {
        let next = line_end + separator_len(s, line_end);
        if next < s.len() && is_printable(s[next]) && s[next] != '#' {
            lemma_run_end(s, next);
        }
    }
    lemma_run_end(s, head.desc_start + 1);
}

/// The instructions that start at a line lie inside the text, and there is at
/// least one where the line is an instruction.
pub proof fn lemma_body(s: Seq<char>, at: int)
    requires
        0 <= at <= s.len(),
    ensures
        at <= body_end(s, at) <= s.len(),
        is_instruction_line(s, at) ==> at < body_end(s, at),
        is_instruction_line(s, at) <==> instructions_from(s, at).len() > 0,
    decreases s.len() - at,
{
    if is_instruction_line(s, at) {
        lemma_run_end(s, at);
        lemma_body(s, next_line(s, at));
    }
}

/// The command of a block is complete.
pub proof fn lemma_command_complete(s: Seq<char>, at: int)
    requires
        block_at(s, at),
    ensures
        command_at(s, at).is_complete(),
        at < block_end(s, at) <= s.len(),
{
    lemma_block_head(s, at);
    lemma_body(s, block_head(s, at)->0.body_start);
}

/// Where the places of a block's parts, as indices of a vector, lie.
struct HeadAt {
    name_end: usize,
    deps_start: usize,
    deps_end: usize,
    desc_start: usize,
    desc_end: usize,
    body_start: usize,
}

impl View for HeadAt {
    type V = BlockHead;

    closed spec fn view(&self) -> BlockHead {
        BlockHead {
            name_end: self.name_end as int,
            deps_start: self.deps_start as int,
            deps_end: self.deps_end as int,
            desc_start: self.desc_start as int,
            desc_end: self.desc_end as int,
            body_start: self.body_start as int,
        }
    }
}

/// The index of the last `]` in `chars[from..to)`.
fn last_close_in(chars: &Vec<char>, from: usize, to: usize) -> (r: Option<usize>)
    requires
        from <= to <= chars.len(),
    ensures
        match r {
            Some(close) => last_close(chars@, from as int, to as int) == Some(close as int),
            None => last_close(chars@, from as int, to as int) is None,
        },
{
    let mut end: usize = to;
    while end > from
        invariant
            from <= end <= to <= chars.len(),
            last_close(chars@, from as int, to as int) == last_close(
                chars@,
                from as int,
                end as int,
            ),
        decreases end - from,
    {
        if chars[end - 1] == ']' {
            return Some(end - 1);
        }
        end = end - 1;
    }
    None
}

/// Where the dependencies lie behind a name that closes at `close`.
fn read_span(chars: &Vec<char>, close: usize, line_end: usize) -> (r: Option<(usize, usize)>)
    requires
        close < line_end <= chars.len(),
    ensures
        match r {
            Some(span) => dependencies_span(chars@, close as int, line_end as int) == Some(
                (span.0 as int, span.1 as int),
            ) && span.0 <= span.1 <= chars.len(),
            None => dependencies_span(chars@, close as int, line_end as int) is None,
        },
{
    if line_end - close > 1 {
        if chars[close + 1] == '#' {
            None
        } else {
            Some((close + 1, line_end))
        }
    } else {
        let n = separator_at(chars, line_end);
        if n == 0 {
            return None;
        }
        let next = line_end + n;
        if next < chars.len() && printable(chars[next]) && chars[next] != '#' {
            let end = scan_run(chars, next);
            Some((next, end))
        } else if separator_at(chars, next) > 0 {
            Some((next, next))
        } else {
            Some((line_end, line_end))
        }
    }
}

/// The layout of the block that opens at `at`, if one does.
fn read_head(chars: &Vec<char>, at: usize) -> (r: Option<HeadAt>)
    requires
        at < chars.len(),
    ensures
        match r {
            Some(head) => block_head(chars@, at as int) == Some(head@),
            None => block_head(chars@, at as int) is None,
        },
{
    if chars[at] != '[' {
        return None;
    }
    let line_end = scan_run(chars, at + 1);
    if line_end - at < 3 {
        return None;
    }
    let close = match last_close_in(chars, at + 2, line_end) {
        Some(close) => close,
        None => {
            return None;
        },
    };
    proof {
        lemma_last_close(chars@, at + 2, line_end as int);
    }
    let (deps_start, deps_end) = match read_span(chars, close, line_end) {
        Some(span) => span,
        None => {
            return None;
        },
    };
    let n = separator_at(chars, deps_end);
    if n == 0 {
        return None;
    }
    let desc_start = deps_end + n;
    if desc_start >= chars.len() || chars.len() - desc_start < 2 {
        return None;
    }
    if chars[desc_start] != '#' || !printable(chars[desc_start + 1]) {
        return None;
    }
    let desc_end = scan_run(chars, desc_start + 1);
    let m = separator_at(chars, desc_end);
    if m == 0 {
        return None;
    }
    let body_start = desc_end + m;
    if body_start >= chars.len() || !printable(chars[body_start]) {
        return None;
    }
    Some(HeadAt { name_end: close, deps_start, deps_end, desc_start, desc_end, body_start })
}

/// Whether an instruction starts at `at`.
fn instruction_line_here(chars: &Vec<char>, at: usize) -> (r: bool)
    requires
        at <= chars.len(),
    ensures
        r == is_instruction_line(chars@, at as int),
{
    if at >= chars.len() || !printable(chars[at]) {
        return false;
    }
    read_head(chars, at).is_none()
}

/// The instructions that start at `at`, and where they end.
fn read_body(content: &str, chars: &Vec<char>, at: usize) -> (r: (Vec<String>, usize))
    requires
        chars@ == content@,
        at <= chars.len(),
    ensures
        texts(r.0@) == instructions_from(content@, at as int),
        r.1 == body_end(content@, at as int),
{
    let ghost s = chars@;
    let mut lines: Vec<String> = Vec::new();
    let mut line: usize = at;
    let mut more = instruction_line_here(chars, line);
    proof {
        assert(texts(lines@) =~= Seq::<Seq<char>>::empty());
        assert(Seq::<Seq<char>>::empty() + instructions_from(s, at as int) =~= instructions_from(
            s,
            at as int,
        ));
    }
    while more
        invariant
            s == chars@,
            s == content@,
            line <= chars.len(),
            more == is_instruction_line(s, line as int),
            instructions_from(s, at as int) == texts(lines@) + instructions_from(s, line as int),
            body_end(s, at as int) == body_end(s, line as int),
        decreases chars.len() - line,
    {
        let end = scan_run(chars, line);
        let n = separator_at(chars, end);
        let ghost before = texts(lines@);
        proof {
            lemma_run_end(s, line as int);
        }
        if n == 2 {
            lines.push(copy_range(content, line, end + 1));
        } else {
            lines.push(copy_range(content, line, end));
        }
        proof {
            assert(texts(lines@) =~= before.push(instruction_at(s, line as int)));
            assert(before + (seq![instruction_at(s, line as int)] + instructions_from(
                s,
                next_line(s, line as int),
            )) =~= before.push(instruction_at(s, line as int)) + instructions_from(
                s,
                next_line(s, line as int),
            ));
        }
        line = end + n;
        more = instruction_line_here(chars, line);
    }
    proof {
        assert(texts(lines@) + Seq::<Seq<char>>::empty() =~= texts(lines@));
    }
    (lines, line)
}

/// The commands of `content`, in the order in which their blocks stand. What
/// does not make a whole block gives no command, and no error either.
pub fn commands(content: &str) -> (found: Vec<Command>)
    ensures
        command_views(found@) == commands_in(content@),
        found@.len() == commands_in(content@).len(),
{
    let chars = chars_of(content);
    commands_of(content, &chars)
}

/// As [`commands`], for a text whose characters are at hand.
pub(crate) fn commands_of(content: &str, chars: &Vec<char>) -> (found: Vec<Command>)
    requires
        chars@ == content@,
    ensures
        command_views(found@) == commands_in(content@),
        found@.len() == commands_in(content@).len(),
{
    let ghost s = chars@;
    let mut found: Vec<Command> = Vec::new();
    let ghost mut seen: Seq<int> = Seq::empty();
    let mut at: usize = 0;
    while at < chars.len()
        invariant
            s == chars@,
            s == content@,
            at <= chars.len(),
            blocks_from(s, 0) == seen + blocks_from(s, at as int),
            found@.len() == seen.len(),
            forall|k: int| 0 <= k < seen.len() ==> (#[trigger] found@[k])@ == command_at(s, seen[k]),
        decreases chars.len() - at,
    {
        let mut next: usize = at + 1;
        match read_head(chars, at) {
            Some(head) => {
                if instruction_line_here(chars, head.body_start) {
                    proof {
                        lemma_command_complete(s, at as int);
                        lemma_block_head(s, at as int);
                        lemma_trimmed_subrange(s, head.deps_start as int, head.deps_end as int);
                    }
                    let (instructions, end) = read_body(content, chars, head.body_start);
                    let name = copy_range(content, at + 1, head.name_end);
                    let description = copy_range(content, head.desc_start, head.desc_end);
                    let (start, stop) = trim_range(chars, head.deps_start, head.deps_end);
                    let prior_commands = copy_range(content, start, stop);
                    let command = Command::from_parts(
                        name,
                        description,
                        prior_commands,
                        instructions,
                    );
                    assert(command@ == command_at(s, at as int));
                    found.push(command);
                    proof {
                        assert(seen + (seq![at as int] + blocks_from(s, end as int)) =~= seen.push(
                            at as int,
                        ) + blocks_from(s, end as int));
                        seen = seen.push(at as int);
                    }
                    next = end;
                }
            },
            None => {},
        }
        at = next;
    }
    proof {
        assert(blocks_from(s, 0) =~= seen);
        assert(command_views(found@) =~= commands_in(s));
    }
    found
}

} // verus!
