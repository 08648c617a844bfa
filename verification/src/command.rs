//! A task, and the Makefile rule that it is written out as.

use crate::text::{
    chars_of, copy_range, joined, lemma_joined_take, lemma_trimmed_subrange, texts, trim_range,
    trimmed,
};
use vstd::prelude::*;

verus! {

/// What a [`Command`] holds, as plain sequences.
pub struct CommandView {
    /// The task's name: the text between the brackets of its header.
    pub name: Seq<char>,
    /// The description, with the `#` that marks it still in front.
    pub description: Seq<char>,
    /// The names of the tasks this one depends on, as one text.
    pub prior_commands: Seq<char>,
    /// The lines to run, in their order, each as it was written.
    pub instructions: Seq<Seq<char>>,
}

impl CommandView {
    /// Whether nothing is missing: a name, a description behind its marker, and
    /// at least one instruction.
    pub open spec fn is_complete(self) -> bool {
        &&& self.name.len() > 0
        &&& self.description.len() > 0
        &&& self.description[0] == '#'
        &&& self.instructions.len() > 0
    }
}

/// One task of a task file. Every value of this type is complete: it has a
/// name, a description that starts with `#`, and at least one instruction.
/// Nothing is asked of the dependencies: they are one text, empty where the
/// task depends on nothing, and are neither split nor looked up.
#[derive(Debug, PartialEq, Eq)]
pub struct Command {
    name: String,
    description: String,
    prior_commands: String,
    instructions: Vec<String>,
}

impl View for Command {
    type V = CommandView;

    closed spec fn view(&self) -> CommandView {
        CommandView {
            name: self.name@,
            description: self.description@,
            prior_commands: self.prior_commands@,
            instructions: texts(self.instructions@),
        }
    }
}

impl Clone for Command {
    /// A second command with the same parts.
    fn clone(&self) -> (copy: Self)
        ensures
            copy@ == self@,
    {
        proof {
            use_type_invariant(self);
        }
        let mut instructions: Vec<String> = Vec::new();
        let mut i: usize = 0;
        while i < self.instructions.len()
            invariant
                i <= self.instructions.len(),
                instructions@.len() == i,
                forall|k: int| 0 <= k < i ==> (#[trigger] instructions@[k])@ == self.instructions@[k]@,
            decreases self.instructions.len() - i,
        {
            instructions.push(self.instructions[i].clone());
            i = i + 1;
        }
        assert(texts(instructions@) =~= texts(self.instructions@));
        Command {
            name: self.name.clone(),
            description: self.description.clone(),
            prior_commands: self.prior_commands.clone(),
            instructions,
        }
    }
}

/// What a vector of commands holds, in its order.
pub open spec fn command_views(v: Seq<Command>) -> Seq<CommandView> {
    Seq::new(v.len(), |i: int| v[i]@)
}

/// The line that an instruction is written out as: one tab, the instruction as
/// it is, and a line feed.
pub open spec fn instruction_line(instruction: Seq<char>) -> Seq<char> {
    "\t"@ + instruction + "\n"@
}

/// The lines of the instructions, one for each and in their order.
pub open spec fn instruction_lines(instructions: Seq<Seq<char>>) -> Seq<Seq<char>> {
    Seq::new(instructions.len(), |k: int| instruction_line(instructions[k]))
}

/// The first three lines of a rule: the line that documents the task, with the
/// description freed of its marker and trimmed; the line that declares the
/// target phony; and the target with what it depends on.
pub open spec fn rule_head(c: CommandView) -> Seq<char> {
    "## "@ + c.name + ": "@ + trimmed(c.description.skip(1)) + "\n"@ + ".PHONY: "@ + c.name + "\n"@
        + c.name + ": "@ + c.prior_commands + "\n"@
}

/// The rule that a task is written out as.
pub open spec fn rule_text(c: CommandView) -> Seq<char> {
    rule_head(c) + joined(instruction_lines(c.instructions))
}

impl Command {
    #[verifier::type_invariant]
    spec fn complete(&self) -> bool {
        self@.is_complete()
    }

    /// A command of these parts, which the caller knows to be complete.
    pub(crate) fn from_parts(
        name: String,
        description: String,
        prior_commands: String,
        instructions: Vec<String>,
    ) -> (command: Command)
        requires
            name@.len() > 0,
            description@.len() > 0,
            description@[0] == '#',
            instructions@.len() > 0,
        ensures
            command@ == (CommandView {
                name: name@,
                description: description@,
                prior_commands: prior_commands@,
                instructions: texts(instructions@),
            }),
    {
        Command { name, description, prior_commands, instructions }
    }

    /// A command of these parts, if they make a complete one: `None` where the
    /// name is empty, the description does not start with `#`, or there is no
    /// instruction.
    pub fn new(
        name: String,
        description: String,
        prior_commands: String,
        instructions: Vec<String>,
    ) -> (command: Option<Command>)
        ensures
            command is Some <==> (CommandView {
                name: name@,
                description: description@,
                prior_commands: prior_commands@,
                instructions: texts(instructions@),
            }).is_complete(),
            command is Some ==> command->0@ == (CommandView {
                name: name@,
                description: description@,
                prior_commands: prior_commands@,
                instructions: texts(instructions@),
            }),
    {
        if name.as_str().is_empty() || description.as_str().is_empty() || instructions.len() == 0 {
            return None;
        }
        if description.as_str().get_char(0) != '#' {
            return None;
        }
        Some(Command::from_parts(name, description, prior_commands, instructions))
    }

    /// The task's name. Like every command, this one is complete.
    pub fn name(&self) -> (r: &str)
        ensures
            r@ == self@.name,
            self@.is_complete(),
    {
        proof {
            use_type_invariant(self);
        }
        self.name.as_str()
    }

    /// The description, with its marker in front.
    pub fn description(&self) -> (r: &str)
        ensures
            r@ == self@.description,
    {
        self.description.as_str()
    }

    /// What the task depends on.
    pub fn prior_commands(&self) -> (r: &str)
        ensures
            r@ == self@.prior_commands,
    {
        self.prior_commands.as_str()
    }

    /// The instructions, in their order.
    pub fn instructions(&self) -> (r: &Vec<String>)
        ensures
            texts(r@) == self@.instructions,
    {
        &self.instructions
    }

    /// The Makefile rule of the command: three lines that document, declare and
    /// open the target, then one line for each instruction.
    pub fn to_makefile(&self) -> (out: String)
        ensures
            out@ == rule_text(self@),
    {
        proof {
            use_type_invariant(self);
        }
        let chars = chars_of(self.description.as_str());
        let (start, end) = trim_range(&chars, 1, chars.len());
        let summary = copy_range(self.description.as_str(), start, end);
        proof {
            lemma_trimmed_subrange(chars@, 1, chars@.len() as int);
            assert(self@.description.skip(1) =~= chars@.subrange(1, chars@.len() as int));
        }
        let mut out = String::from_str("## ");
        out.append(self.name.as_str());
        out.append(": ");
        out.append(summary.as_str());
        out.append("\n");
        out.append(".PHONY: ");
        out.append(self.name.as_str());
        out.append("\n");
        out.append(self.name.as_str());
        out.append(": ");
        out.append(self.prior_commands.as_str());
        out.append("\n");
        assert(out@ == rule_head(self@));
        let ghost lines = instruction_lines(self@.instructions);
        let mut i: usize = 0;
        assert(lines.take(0) =~= Seq::<Seq<char>>::empty());
        assert(out@ =~= rule_head(self@) + joined(lines.take(0)));
        while i < self.instructions.len()
            invariant
                i <= self.instructions.len(),
                self@.instructions == texts(self.instructions@),
                lines == instruction_lines(self@.instructions),
                out@ == rule_head(self@) + joined(lines.take(i as int)),
            decreases self.instructions.len() - i,
        {
            out.append("\t");
            out.append(self.instructions[i].as_str());
            out.append("\n");
            proof {
                lemma_joined_take(lines, i as int);
                assert(out@ =~= rule_head(self@) + joined(lines.take(i + 1)));
            }
            i = i + 1;
        }
        assert(lines.take(i as int) =~= lines);
        out
    }
}

} // verus!
