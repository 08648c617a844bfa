//! What holds of every task file and of every Makefile made from one.

use crate::block::{
    block_at, block_end, block_head, blocks_apart, blocks_from, command_at, commands_in,
    lemma_block_head, lemma_command_complete, openings_from,
};
use crate::command::{instruction_line, instruction_lines, rule_head, rule_text, CommandView};
use crate::date::DateView;
use crate::directive::{directives_from, include_targets, lemma_directives_in_order, target_at};
use crate::render::{
    banner, include_line, include_lines, makefile_text, preamble, rule_block, rule_blocks,
};
use crate::text::{
    joined, lemma_joined_part, lemma_part_starts_ascend, lemma_run_end, part_start, run_end,
    separator_len,
};
use vstd::prelude::*;

verus! {

/// The blocks that are read stand in the text from left to right and do not
/// overlap: at each place a block stands, none starts before `from`, each lies
/// inside the text, and each starts at or behind the end of the one before it.
pub proof fn lemma_blocks_in_order(s: Seq<char>, from: int)
    requires
        0 <= from,
    ensures
        forall|k: int|
            0 <= k < blocks_from(s, from).len() ==> {
                &&& from <= (#[trigger] blocks_from(s, from)[k])
                &&& block_at(s, blocks_from(s, from)[k])
                &&& blocks_from(s, from)[k] < block_end(s, blocks_from(s, from)[k]) <= s.len()
            },
        forall|j: int, k: int|
            0 <= j < k < blocks_from(s, from).len() ==> block_end(
                s,
                #[trigger] blocks_from(s, from)[j],
            ) <= #[trigger] blocks_from(s, from)[k],
    decreases s.len() - from,
{
    if from < s.len() {
        if block_at(s, from) {
            let next = block_end(s, from);
            lemma_command_complete(s, from);
            lemma_blocks_in_order(s, next);
            let rest = blocks_from(s, next);
            let all = blocks_from(s, from);
            assert(all =~= seq![from] + rest);
            assert forall|k: int| 0 <= k < all.len() implies {
                &&& from <= (#[trigger] all[k])
                &&& block_at(s, all[k])
                &&& all[k] < block_end(s, all[k]) <= s.len()
            } by {
                if k > 0 {
                    assert(all[k] == rest[k - 1]);
                }
            }
            assert forall|j: int, k: int| 0 <= j < k < all.len() implies block_end(
                s,
                #[trigger] all[j],
            ) <= #[trigger] all[k] by {
                assert(all[k] == rest[k - 1]);
                if j > 0 {
                    assert(all[j] == rest[j - 1]);
                }
            }
        } else {
            lemma_blocks_in_order(s, from + 1);
            assert(blocks_from(s, from) == blocks_from(s, from + 1));
        }
    } else {
        assert(blocks_from(s, from).len() == 0);
    }
}

/// No block is passed over: wherever a block stands at or after `from`, it is
/// read there, or the place lies inside a block that was read further left.
pub proof fn lemma_blocks_complete(s: Seq<char>, from: int, at: int)
    requires
        0 <= from <= at,
        block_at(s, at),
    ensures
        exists|k: int|
            0 <= k < blocks_from(s, from).len() && (#[trigger] blocks_from(s, from)[k]) <= at
                < block_end(s, blocks_from(s, from)[k]),
    decreases s.len() - from,
{
    let all = blocks_from(s, from);
    if block_at(s, from) {
        let next = block_end(s, from);
        lemma_command_complete(s, from);
        assert(all =~= seq![from] + blocks_from(s, next));
        if at < next {
            assert(all[0] == from);
        } else {
            lemma_blocks_complete(s, next, at);
            let k = choose|k: int|
                0 <= k < blocks_from(s, next).len() && (#[trigger] blocks_from(s, next)[k]) <= at
                    < block_end(s, blocks_from(s, next)[k]);
            assert(all[k + 1] == blocks_from(s, next)[k]);
        }
    } else {
        assert(from != at);
        lemma_blocks_complete(s, from + 1, at);
    }
}

/// Every command that is read is complete: what lacks a description or an
/// instruction gives no command.
pub proof fn lemma_commands_complete(s: Seq<char>)
    ensures
        forall|k: int| 0 <= k < commands_in(s).len() ==> (#[trigger] commands_in(s)[k]).is_complete(),
{
    lemma_blocks_in_order(s, 0);
    assert forall|k: int| 0 <= k < commands_in(s).len() implies (#[trigger] commands_in(
        s,
    )[k]).is_complete() by {
        lemma_command_complete(s, blocks_from(s, 0)[k]);
    }
}

/// Where no block opens between two places, as many open behind the one as
/// behind the other.
proof fn lemma_no_openings_between(s: Seq<char>, low: int, high: int)
    requires
        0 <= low <= high <= s.len(),
        forall|at: int| low <= at < high ==> (#[trigger] block_head(s, at)) is None,
    ensures
        openings_from(s, low) == openings_from(s, high),
    decreases high - low,
{
    if low < high {
        lemma_no_openings_between(s, low + 1, high);
    }
}

/// [`lemma_command_count`], from any place on.
proof fn lemma_count_from(s: Seq<char>, from: int)
    requires
        blocks_apart(s),
        0 <= from,
    ensures
        blocks_from(s, from).len() == openings_from(s, from),
    decreases s.len() - from,
{
    if from < s.len() {
        if block_at(s, from) {
            let next = block_end(s, from);
            lemma_command_complete(s, from);
            lemma_count_from(s, next);
            assert(blocks_from(s, from) =~= seq![from] + blocks_from(s, next));
            assert(block_head(s, from) is Some);
            lemma_no_openings_between(s, from + 1, next);
        } else {
            lemma_count_from(s, from + 1);
        }
    }
}

/// In a text whose blocks stand apart there are as many commands as there are
/// headers that are followed, at most one line of dependencies later, by a
/// description and a line that is not empty.
pub proof fn lemma_command_count(s: Seq<char>)
    requires
        blocks_apart(s),
    ensures
        commands_in(s).len() == openings_from(s, 0),
{
    lemma_count_from(s, 0);
}

/// At most as many commands are read as blocks open, whatever the text.
pub proof fn lemma_command_count_bound(s: Seq<char>, from: int)
    requires
        0 <= from,
    ensures
        blocks_from(s, from).len() <= openings_from(s, from),
    decreases s.len() - from,
{
    if from < s.len() {
        if block_at(s, from) {
            let next = block_end(s, from);
            lemma_command_complete(s, from);
            lemma_command_count_bound(s, next);
            assert(blocks_from(s, from) =~= seq![from] + blocks_from(s, next));
            lemma_openings_descend(s, from + 1, next);
        } else {
            lemma_command_count_bound(s, from + 1);
        }
    }
}

/// Further right, no more blocks are left to open.
proof fn lemma_openings_descend(s: Seq<char>, low: int, high: int)
    requires
        0 <= low <= high,
    ensures
        openings_from(s, high) <= openings_from(s, low),
    decreases high - low,
{
    if low < high {
        lemma_openings_descend(s, low + 1, high);
    }
}

/// Where the header stands alone on its line and the next line starts with
/// `#`, that line is the description and the command depends on nothing.
pub proof fn lemma_description_on_second_line(s: Seq<char>, at: int)
    requires
        block_head(s, at) is Some,
        ({
            let line_end = block_head(s, at)->0.name_end + 1;
            let second = line_end + separator_len(s, line_end);
            &&& line_end == run_end(s, at + 1)
            &&& separator_len(s, line_end) > 0
            &&& second < s.len()
            &&& s[second] == '#'
        }),
    ensures
        ({
            let head = block_head(s, at)->0;
            let line_end = head.name_end + 1;
            &&& head.desc_start == line_end + separator_len(s, line_end)
            &&& command_at(s, at).prior_commands == Seq::<char>::empty()
        }),
{
    let head = block_head(s, at)->0;
    lemma_block_head(s, at);
    assert(s.subrange(head.deps_start, head.deps_end) =~= Seq::<char>::empty());
    assert(command_at(s, at).prior_commands =~= Seq::<char>::empty());
}

/// Where the line with index `k` of the includes starts in the Makefile.
pub open spec fn include_line_start(includes: Seq<Seq<char>>, date: DateView, k: int) -> int {
    banner(date).len() + part_start(include_lines(includes), k)
}

/// Where the block with index `k` of the commands starts in the Makefile.
pub open spec fn rule_block_start(
    includes: Seq<Seq<char>>,
    helpers: Seq<char>,
    commands: Seq<CommandView>,
    date: DateView,
    k: int,
) -> int {
    preamble(includes, helpers, date).len() + part_start(rule_blocks(commands), k)
}

/// The Makefile holds the includes and the commands in the order in which they
/// were handed in: the line of each include stands where the line of the one
/// before it ends, the first of them behind the banner; the block of each
/// command stands where the block of the one before it ends, the first of them
/// behind the helpers; and the includes stand before the commands.
pub proof fn lemma_output_order(
    includes: Seq<Seq<char>>,
    helpers: Seq<char>,
    commands: Seq<CommandView>,
    date: DateView,
)
    ensures
        include_line_start(includes, date, 0) == banner(date).len(),
        forall|k: int|
            0 <= k < includes.len() ==> {
                &&& include_line_start(includes, date, k) < #[trigger] include_line_start(
                    includes,
                    date,
                    k + 1,
                ) <= preamble(includes, helpers, date).len()
                &&& makefile_text(includes, helpers, commands, date).subrange(
                    include_line_start(includes, date, k),
                    include_line_start(includes, date, k + 1),
                ) == include_line(includes[k])
            },
        rule_block_start(includes, helpers, commands, date, 0) == preamble(
            includes,
            helpers,
            date,
        ).len(),
        forall|k: int|
            0 <= k < commands.len() ==> {
                &&& rule_block_start(includes, helpers, commands, date, k)
                    < #[trigger] rule_block_start(includes, helpers, commands, date, k + 1)
                    <= makefile_text(includes, helpers, commands, date).len()
                &&& makefile_text(includes, helpers, commands, date).subrange(
                    rule_block_start(includes, helpers, commands, date, k),
                    rule_block_start(includes, helpers, commands, date, k + 1),
                ) == rule_block(commands[k])
            },
{
    let out = makefile_text(includes, helpers, commands, date);
    let lines = include_lines(includes);
    let blocks = rule_blocks(commands);
    let before = preamble(includes, helpers, date);
    reveal_strlit("\n");
    assert forall|k: int| 0 <= k < includes.len() implies {
        &&& include_line_start(includes, date, k) < #[trigger] include_line_start(
            includes,
            date,
            k + 1,
        ) <= before.len()
        &&& out.subrange(
            include_line_start(includes, date, k),
            include_line_start(includes, date, k + 1),
        ) == include_line(includes[k])
    } by {
        lemma_joined_part(lines, k);
        assert(lines[k] == include_line(includes[k]));
        assert(lines[k].len() > 0);
        let low = part_start(lines, k);
        let high = part_start(lines, k + 1);
        assert(out.subrange(banner(date).len() + low, banner(date).len() + high) =~= joined(
            lines,
        ).subrange(low, high));
    }
    assert forall|k: int| 0 <= k < commands.len() implies {
        &&& rule_block_start(includes, helpers, commands, date, k) < #[trigger] rule_block_start(
            includes,
            helpers,
            commands,
            date,
            k + 1,
        ) <= out.len()
        &&& out.subrange(
            rule_block_start(includes, helpers, commands, date, k),
            rule_block_start(includes, helpers, commands, date, k + 1),
        ) == rule_block(commands[k])
    } by {
        lemma_joined_part(blocks, k);
        assert(blocks[k] == rule_block(commands[k]));
        assert(blocks[k].len() > 0);
        let low = part_start(blocks, k);
        let high = part_start(blocks, k + 1);
        assert(out.subrange(before.len() + low, before.len() + high) =~= joined(blocks).subrange(
            low,
            high,
        ));
    }
}

/// The includes and the commands of a task file stand in its Makefile in the
/// order in which they stand in the task file: of two directives, and of two
/// blocks, the one that is read further left in the task file is written
/// further up in the Makefile, and what is written is the target of that
/// directive and the command of that block.
pub proof fn lemma_order_kept(s: Seq<char>, helpers: Seq<char>, date: DateView)
    ensures
        ({
            let includes = include_targets(s);
            let commands = commands_in(s);
            let out = makefile_text(includes, helpers, commands, date);
            &&& forall|j: int, k: int|
                0 <= j < k < includes.len() ==> {
                    &&& (#[trigger] directives_from(s, 0)[j]) < (#[trigger] directives_from(s, 0)[k])
                    &&& include_line_start(includes, date, j) < include_line_start(
                        includes,
                        date,
                        k,
                    )
                }
            &&& forall|k: int|
                0 <= k < includes.len() ==> out.subrange(
                    include_line_start(includes, date, k),
                    #[trigger] include_line_start(includes, date, k + 1),
                ) == include_line(target_at(s, directives_from(s, 0)[k]))
            &&& forall|j: int, k: int|
                0 <= j < k < commands.len() ==> {
                    &&& (#[trigger] blocks_from(s, 0)[j]) < (#[trigger] blocks_from(s, 0)[k])
                    &&& rule_block_start(includes, helpers, commands, date, j) < rule_block_start(
                        includes,
                        helpers,
                        commands,
                        date,
                        k,
                    )
                }
            &&& forall|k: int|
                0 <= k < commands.len() ==> out.subrange(
                    rule_block_start(includes, helpers, commands, date, k),
                    #[trigger] rule_block_start(includes, helpers, commands, date, k + 1),
                ) == rule_block(command_at(s, blocks_from(s, 0)[k]))
        }),
{
    let includes = include_targets(s);
    let commands = commands_in(s);
    lemma_directives_in_order(s, 0);
    lemma_blocks_in_order(s, 0);
    lemma_output_order(includes, helpers, commands, date);
    reveal_strlit("\n");
    assert forall|j: int, k: int| 0 <= j < k < includes.len() implies {
        &&& (#[trigger] directives_from(s, 0)[j]) < (#[trigger] directives_from(s, 0)[k])
        &&& include_line_start(includes, date, j) < include_line_start(includes, date, k)
    } by {
        lemma_run_end(s, directives_from(s, 0)[j] + 8);
        let lines = include_lines(includes);
        lemma_joined_part(lines, j);
        assert(lines[j] == include_line(includes[j]));
        lemma_part_starts_ascend(lines, j + 1, k);
    }
    assert forall|j: int, k: int| 0 <= j < k < commands.len() implies {
        &&& (#[trigger] blocks_from(s, 0)[j]) < (#[trigger] blocks_from(s, 0)[k])
        &&& rule_block_start(includes, helpers, commands, date, j) < rule_block_start(
            includes,
            helpers,
            commands,
            date,
            k,
        )
    } by {
        let blocks = rule_blocks(commands);
        lemma_joined_part(blocks, j);
        assert(blocks[j] == rule_block(commands[j]));
        lemma_part_starts_ascend(blocks, j + 1, k);
    }
}

/// Where the line of the instruction with index `k` starts in the rule of
/// `command`.
pub open spec fn instruction_line_start(command: CommandView, k: int) -> int {
    rule_head(command).len() + part_start(instruction_lines(command.instructions), k)
}

/// A rule holds the instructions in their order and as they are: the line of
/// each stands where the line of the one before it ends, the first of them
/// behind the three lines that open the rule, and it is one tab, the
/// instruction itself, and a line feed.
pub proof fn lemma_instructions_kept(command: CommandView)
    ensures
        instruction_line_start(command, 0) == rule_head(command).len(),
        instruction_line_start(command, command.instructions.len() as int) == rule_text(
            command,
        ).len(),
        forall|k: int|
            0 <= k < command.instructions.len() ==> {
                &&& #[trigger] instruction_line_start(command, k + 1) == instruction_line_start(
                    command,
                    k,
                ) + 1 + command.instructions[k].len() + 1
                &&& rule_text(command).subrange(
                    instruction_line_start(command, k),
                    instruction_line_start(command, k + 1),
                ) == instruction_line(command.instructions[k])
                &&& rule_text(command)[instruction_line_start(command, k)] == '\t'
                &&& rule_text(command).subrange(
                    instruction_line_start(command, k) + 1,
                    instruction_line_start(command, k + 1) - 1,
                ) == command.instructions[k]
                &&& rule_text(command)[instruction_line_start(command, k + 1) - 1] == '\n'
            },
{
    let out = rule_text(command);
    let lines = instruction_lines(command.instructions);
    reveal_strlit("\t");
    reveal_strlit("\n");
    lemma_part_starts_ascend(lines, 0, lines.len() as int);
    assert forall|k: int| 0 <= k < command.instructions.len() implies {
        &&& #[trigger] instruction_line_start(command, k + 1) == instruction_line_start(command, k)
            + 1 + command.instructions[k].len() + 1
        &&& out.subrange(instruction_line_start(command, k), instruction_line_start(command, k + 1))
            == instruction_line(command.instructions[k])
        &&& out[instruction_line_start(command, k)] == '\t'
        &&& out.subrange(
            instruction_line_start(command, k) + 1,
            instruction_line_start(command, k + 1) - 1,
        ) == command.instructions[k]
        &&& out[instruction_line_start(command, k + 1) - 1] == '\n'
    } by {
        lemma_joined_part(lines, k);
        let line = instruction_line(command.instructions[k]);
        assert(lines[k] == line);
        let low = part_start(lines, k);
        let high = part_start(lines, k + 1);
        let base = rule_head(command).len() as int;
        assert(out.subrange(base + low, base + high) =~= joined(lines).subrange(low, high));
        assert(line.len() == command.instructions[k].len() + 2);
        assert(out[base + low] == out.subrange(base + low, base + high)[0]);
        assert(line[0] == '\t');
        assert(out[base + high - 1] == out.subrange(base + low, base + high)[high - low - 1]);
        assert(line[high - low - 1] == '\n');
        assert(out.subrange(base + low + 1, base + high - 1) =~= line.subrange(
            1,
            line.len() - 1,
        ));
        assert(line.subrange(1, line.len() - 1) =~= command.instructions[k]);
    }
}

/// Rendering is repeatable: two texts made of the same includes, helpers and
/// commands for the same date are the same text, and so the same bytes.
pub proof fn lemma_render_repeatable(
    first: Seq<char>,
    second: Seq<char>,
    includes: Seq<Seq<char>>,
    helpers: Seq<char>,
    commands: Seq<CommandView>,
    date: DateView,
)
    requires
        first == makefile_text(includes, helpers, commands, date),
        second == makefile_text(includes, helpers, commands, date),
    ensures
        first == second,
        vstd::utf8::encode_utf8(first) == vstd::utf8::encode_utf8(second),
{
}

} // verus!
