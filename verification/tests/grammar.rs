use domake::block::commands;
use domake::directive::includes;
use domake::parse;

fn strings(items: &[&str]) -> Vec<String> {
    items.iter().map(|s| s.to_string()).collect()
}

#[test]
fn empty_document_gives_nothing() {
    let (found, tasks) = parse(String::new());
    assert!(found.is_empty());
    assert!(tasks.is_empty());
}

#[test]
fn document_without_directive_gives_no_include() {
    assert!(includes("[a]\n#A\necho a\n").is_empty());
    assert!(includes("include\n").is_empty());
    assert!(includes("include \n").is_empty());
    assert!(includes("include").is_empty());
    assert!(includes("include ").is_empty());
    assert!(includes("Include x\n").is_empty());
    assert!(includes("include\tx\n").is_empty());
}

#[test]
fn directive_may_stand_anywhere_in_a_line() {
    assert_eq!(includes("  -include common.mk\n"), strings(&["common.mk"]));
    assert_eq!(includes("xinclude y"), strings(&["y"]));
}

#[test]
fn target_runs_to_the_end_of_the_printable_text() {
    assert_eq!(includes("include a b  c \n"), strings(&["a b  c "]));
    assert_eq!(includes("include a\tb\n"), strings(&["a"]));
    assert_eq!(includes("include a\r\ninclude b"), strings(&["a", "b"]));
    assert_eq!(includes("include caf\u{e9}.mk\n"), strings(&["caf"]));
    assert_eq!(includes("include  x\n"), strings(&[" x"]));
}

#[test]
fn directive_inside_a_target_is_part_of_the_target() {
    assert_eq!(includes("include a include b\n"), strings(&["a include b"]));
    assert_eq!(includes("include include \n"), strings(&["include "]));
}

#[test]
fn target_is_not_validated() {
    assert_eq!(includes("include ??? <>|\n"), strings(&["??? <>|"]));
}

#[test]
fn directives_come_in_the_order_of_the_text() {
    assert_eq!(
        includes("include 3\n\n[a]\n#A\necho include 1\ninclude 2\n"),
        strings(&["3", "1", "2"])
    );
}

#[test]
fn name_is_what_stands_between_the_brackets() {
    let found = commands("[build all]\n#B\nx\n");
    assert_eq!(found[0].name(), "build all");
    let found = commands("[[inner]]\n#B\nx\n");
    assert_eq!(found[0].name(), "[inner]");
    let found = commands("[a] [b]\n#B\nx\n");
    assert_eq!(found[0].name(), "a] [b");
    assert_eq!(found[0].prior_commands(), "");
}

#[test]
fn empty_name_is_no_header() {
    assert!(commands("[]\n#B\nx\n").is_empty());
    assert!(commands("[\n#B\nx\n").is_empty());
    assert!(commands("[a\n#B\nx\n").is_empty());
    assert!(commands("[\tb]\n#B\nx\n").is_empty());
}

#[test]
fn header_may_start_inside_a_line() {
    let found = commands("task [a]\n#A\necho\n");
    assert_eq!(found.len(), 1);
    assert_eq!(found[0].name(), "a");
}

#[test]
fn dependencies_are_trimmed() {
    let found = commands("[a]\n   b   c  \n#A\nx\n");
    assert_eq!(found[0].prior_commands(), "b   c");
}

#[test]
fn dependencies_may_share_the_line_of_the_header() {
    let found = commands("[a] b c\n#A\nx\n");
    assert_eq!(found.len(), 1);
    assert_eq!(found[0].name(), "a");
    assert_eq!(found[0].prior_commands(), "b c");
    assert_eq!(found[0].description(), "#A");
}

#[test]
fn blanks_behind_the_header_are_no_dependencies() {
    let found = commands("[a]  \n#A\nx\n");
    assert_eq!(found.len(), 1);
    assert_eq!(found[0].prior_commands(), "");
}

#[test]
fn empty_line_before_the_description_stands_for_no_dependencies() {
    let found = commands("[a]\n\n#A\nx\n");
    assert_eq!(found.len(), 1);
    assert_eq!(found[0].prior_commands(), "");
    assert_eq!(found[0].description(), "#A");
}

#[test]
fn two_lines_before_the_description_are_one_too_many() {
    assert!(commands("[a]\nb\nc\n#A\nx\n").is_empty());
    assert!(commands("[a]\n\n\n#A\nx\n").is_empty());
    assert!(commands("[a] b\nc\n#A\nx\n").is_empty());
}

#[test]
fn dependencies_never_start_with_the_marker() {
    let found = commands("[a]\n#first\n#second\nx\n");
    assert_eq!(found.len(), 1);
    assert_eq!(found[0].prior_commands(), "");
    assert_eq!(found[0].description(), "#first");
    assert_eq!(found[0].instructions(), &strings(&["#second", "x"]));
    assert!(commands("[a]#b\n#A\nx\n").is_empty());
}

#[test]
fn description_needs_text_behind_the_marker() {
    assert!(commands("[a]\n#\nx\n").is_empty());
    let found = commands("[a]\n# \nx\n");
    assert_eq!(found.len(), 1);
    assert_eq!(found[0].description(), "# ");
}

#[test]
fn description_keeps_marker_and_blanks() {
    let found = commands("[a]\n#   spaced out   \nx\n");
    assert_eq!(found[0].description(), "#   spaced out   ");
    assert_eq!(found[0].to_makefile(), "## a: spaced out\n.PHONY: a\na: \n\tx\n");
}

#[test]
fn empty_line_ends_the_instructions() {
    let found = commands("[a]\n#A\none\ntwo\n\nthree\n");
    assert_eq!(found.len(), 1);
    assert_eq!(found[0].instructions(), &strings(&["one", "two"]));
}

#[test]
fn end_of_document_ends_the_instructions() {
    let found = commands("[a]\n#A\none\ntwo");
    assert_eq!(found[0].instructions(), &strings(&["one", "two"]));
}

#[test]
fn new_block_ends_the_instructions() {
    let found = commands("[a]\n#A\none\n[b]\n#B\ntwo\n");
    assert_eq!(found.len(), 2);
    assert_eq!(found[0].name(), "a");
    assert_eq!(found[0].instructions(), &strings(&["one"]));
    assert_eq!(found[1].name(), "b");
    assert_eq!(found[1].instructions(), &strings(&["two"]));
}

#[test]
fn line_in_brackets_that_opens_no_block_is_an_instruction() {
    let found = commands("[a]\n#A\n[ -f x ] && rm x\n[b]\nnothing\n");
    assert_eq!(found.len(), 1);
    assert_eq!(
        found[0].instructions(),
        &strings(&["[ -f x ] && rm x", "[b]", "nothing"])
    );
}

#[test]
fn block_behind_a_description_leaves_no_instruction() {
    let found = commands("[a]\n#A\n[b]\n#B\ntwo\n");
    assert_eq!(found.len(), 1);
    assert_eq!(found[0].name(), "b");
}

#[test]
fn character_that_is_not_printable_ends_the_instructions() {
    let found = commands("[a]\n#A\none\n\ttwo\n");
    assert_eq!(found[0].instructions(), &strings(&["one"]));
    let found = commands("[a]\n#A\none\ttwo\nthree\n");
    assert_eq!(found[0].instructions(), &strings(&["one"]));
    let found = commands("[a]\n#A\n\u{e9}\n");
    assert!(found.is_empty());
}

#[test]
fn no_empty_instruction_at_the_end() {
    let found = commands("[a]\n#A\none\n");
    assert_eq!(found[0].instructions(), &strings(&["one"]));
    let found = commands("[a]\n#A\none\n\n\n");
    assert_eq!(found[0].instructions(), &strings(&["one"]));
}

#[test]
fn carriage_returns_separate_lines_and_stay_in_instructions() {
    let found = commands("[a]\r\nb\r\n#A\r\none\r\ntwo\r\n\r\n[c]\r\n#C\r\nthree");
    assert_eq!(found.len(), 2);
    assert_eq!(found[0].name(), "a");
    assert_eq!(found[0].prior_commands(), "b");
    assert_eq!(found[0].description(), "#A");
    assert_eq!(found[0].instructions(), &strings(&["one\r", "two\r"]));
    assert_eq!(found[1].instructions(), &strings(&["three"]));
}

#[test]
fn lone_carriage_return_is_no_separator() {
    assert!(commands("[a]\r#A\rone\r").is_empty());
    let found = commands("[a]\n#A\none\rtwo\n");
    assert_eq!(found[0].instructions(), &strings(&["one"]));
}

#[test]
fn same_name_twice_gives_two_commands() {
    let found = commands("[a]\n#A\none\n\n[a]\n#A\none\n");
    assert_eq!(found.len(), 2);
    assert_eq!(found[0], found[1]);
}

#[test]
fn dependencies_are_not_looked_up() {
    let found = commands("[a]\na missing\n#A\none\n");
    assert_eq!(found[0].prior_commands(), "a missing");
}

#[test]
fn directive_in_an_instruction_is_read_by_both_scans() {
    let (found, tasks) = parse("[a]\n#A\n-include local.mk\n".to_string());
    assert_eq!(found, strings(&["local.mk"]));
    assert_eq!(tasks[0].instructions(), &strings(&["-include local.mk"]));
}

#[test]
fn parse_gives_what_the_two_scans_give() {
    let content = "include a\n[a]\n#A\none\n\ninclude b\n[b]\nc\n#B\ntwo\n";
    let (found, tasks) = parse(content.to_string());
    assert_eq!(found, includes(content));
    assert_eq!(tasks, commands(content));
}
