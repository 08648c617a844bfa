//! The text of the Makefile: a banner with the date, the includes, the helpers,
//! and one rule for each command.

use crate::command::{command_views, rule_text, Command, CommandView};
use crate::date::{stamp_text, Date, DateView};
use crate::text::{joined, lemma_joined_take, texts};
use vstd::prelude::*;

verus! {

/// The two comment lines that open a Makefile, and the empty line behind them:
/// what made the file, and the day on which it was made.
pub open spec fn banner(date: DateView) -> Seq<char> {
    "# This Makefile was done using 'domake'\n"@ + "# Generated at "@ + stamp_text(date) + "\n"@
        + "\n"@
}

/// The line that an include is written out as.
pub open spec fn include_line(target: Seq<char>) -> Seq<char> {
    "include "@ + target + "\n"@
}

/// The lines of the includes, one for each and in their order.
pub open spec fn include_lines(targets: Seq<Seq<char>>) -> Seq<Seq<char>> {
    Seq::new(targets.len(), |k: int| include_line(targets[k]))
}

/// What a command is written out as: its rule, and a line feed behind it.
pub open spec fn rule_block(command: CommandView) -> Seq<char> {
    rule_text(command) + "\n"@
}

/// The blocks of the commands, one for each and in their order.
pub open spec fn rule_blocks(commands: Seq<CommandView>) -> Seq<Seq<char>> {
    Seq::new(commands.len(), |k: int| rule_block(commands[k]))
}

/// All that stands before the first rule: the banner, the include lines and an
/// empty line, the helpers as they are and an empty line.
pub open spec fn preamble(includes: Seq<Seq<char>>, helpers: Seq<char>, date: DateView) -> Seq<
    char,
> {
    banner(date) + joined(include_lines(includes)) + "\n"@ + helpers + "\n"@ + "\n"@
}

/// The text of the Makefile with these includes, helpers and commands, made on
/// this date.
pub open spec fn makefile_text(
    includes: Seq<Seq<char>>,
    helpers: Seq<char>,
    commands: Seq<CommandView>,
    date: DateView,
) -> Seq<char> {
    preamble(includes, helpers, date) + joined(rule_blocks(commands))
}

/// The text of the Makefile with these includes, helpers and commands, stamped
/// with `date`. Nothing is checked: a dependency need not name a command, and a
/// name may occur twice.
pub fn render(includes: &Vec<String>, helpers: &str, commands: &Vec<Command>, date: &Date) -> (out:
    String)
    ensures
        out@ == makefile_text(texts(includes@), helpers@, command_views(commands@), date@),
{
    let stamp = date.stamp();
    let mut out = String::from_str("# This Makefile was done using 'domake'\n");
    out.append("# Generated at ");
    out.append(stamp.as_str());
    out.append("\n");
    out.append("\n");
    let ghost lines = include_lines(texts(includes@));
    assert(out@ =~= banner(date@) + joined(lines.take(0)));
    let mut i: usize = 0;
    while i < includes.len()
        invariant
            i <= includes.len(),
            lines == include_lines(texts(includes@)),
            out@ == banner(date@) + joined(lines.take(i as int)),
        decreases includes.len() - i,
    {
        out.append("include ");
        out.append(includes[i].as_str());
        out.append("\n");
        proof {
            lemma_joined_take(lines, i as int);
            assert(out@ =~= banner(date@) + joined(lines.take(i + 1)));
        }
        i = i + 1;
    }
    assert(lines.take(i as int) =~= lines);
    out.append("\n");
    out.append(helpers);
    out.append("\n");
    out.append("\n");
    let ghost before = preamble(texts(includes@), helpers@, date@);
    let ghost blocks = rule_blocks(command_views(commands@));
    assert(out@ =~= before + joined(blocks.take(0)));
    let mut k: usize = 0;
    while k < commands.len()
        invariant
            k <= commands.len(),
            blocks == rule_blocks(command_views(commands@)),
            out@ == before + joined(blocks.take(k as int)),
        decreases commands.len() - k,
    {
        let rule = commands[k].to_makefile();
        out.append(rule.as_str());
        out.append("\n");
        proof {
            lemma_joined_take(blocks, k as int);
            assert(out@ =~= before + joined(blocks.take(k + 1)));
        }
        k = k + 1;
    }
    assert(blocks.take(k as int) =~= blocks);
    out
}

/// The text of the Makefile with these includes, helpers and commands, stamped
/// with the date that the system clock shows: whatever day that is, the text is
/// that of [`render`] for it.
pub fn render_today(includes: &Vec<String>, helpers: &str, commands: &Vec<Command>) -> (out: String)
    ensures
        exists|date: DateView|
            date.is_valid() && out@ == #[trigger] makefile_text(
                texts(includes@),
                helpers@,
                command_views(commands@),
                date,
            ),
{
    let date = Date::today();
    render(includes, helpers, commands, &date)
}

} // verus!
