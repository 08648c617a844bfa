use domake::{render, Command, Date};

fn strings(items: &[&str]) -> Vec<String> {
    items.iter().map(|s| s.to_string()).collect()
}

fn command(name: &str, description: &str, prior: &str, instructions: &[&str]) -> Command {
    Command::new(
        name.to_string(),
        description.to_string(),
        prior.to_string(),
        strings(instructions),
    )
    .unwrap()
}

#[test]
fn rule_has_three_lines_and_the_instructions() {
    let build = command("build", "# Compiles  the project ", "deps lint", &["cc -c a.c", "cc -o a a.o"]);
    assert_eq!(
        build.to_makefile(),
        "## build: Compiles  the project\n.PHONY: build\nbuild: deps lint\n\tcc -c a.c\n\tcc -o a a.o\n"
    );
}

#[test]
fn description_loses_its_marker_and_is_trimmed() {
    assert_eq!(command("a", "#x", "", &["i"]).to_makefile(), "## a: x\n.PHONY: a\na: \n\ti\n");
    assert_eq!(command("a", "#  x  ", "", &["i"]).to_makefile(), "## a: x\n.PHONY: a\na: \n\ti\n");
    assert_eq!(command("a", "#", "", &["i"]).to_makefile(), "## a: \n.PHONY: a\na: \n\ti\n");
    assert_eq!(command("a", "##x", "", &["i"]).to_makefile(), "## a: #x\n.PHONY: a\na: \n\ti\n");
    assert_eq!(
        command("a", "#\u{a0}\u{e9}t\u{e9}\u{3000}", "", &["i"]).to_makefile(),
        "## a: \u{e9}t\u{e9}\n.PHONY: a\na: \n\ti\n"
    );
}

#[test]
fn dependencies_are_written_as_they_are() {
    assert_eq!(
        command("a", "#x", "  b   c ", &["i"]).to_makefile(),
        "## a: x\n.PHONY: a\na:   b   c \n\ti\n"
    );
}

#[test]
fn incomplete_parts_make_no_command() {
    let one = strings(&["i"]);
    assert!(Command::new(String::new(), "#d".to_string(), String::new(), one.clone()).is_none());
    assert!(Command::new("a".to_string(), String::new(), String::new(), one.clone()).is_none());
    assert!(Command::new("a".to_string(), "d".to_string(), String::new(), one.clone()).is_none());
    assert!(Command::new("a".to_string(), " #d".to_string(), String::new(), one.clone()).is_none());
    assert!(Command::new("a".to_string(), "#d".to_string(), String::new(), Vec::new()).is_none());
    assert!(Command::new("a".to_string(), "#".to_string(), String::new(), one).is_some());
}

#[test]
fn command_gives_back_its_parts() {
    let c = command("name", "#desc", "prior", &["one", "two"]);
    assert_eq!(c.name(), "name");
    assert_eq!(c.description(), "#desc");
    assert_eq!(c.prior_commands(), "prior");
    assert_eq!(c.instructions(), &strings(&["one", "two"]));
    let copy = c.clone();
    assert_eq!(copy, c);
    assert_eq!(copy.to_makefile(), c.to_makefile());
}

#[test]
fn makefile_without_includes_and_commands_keeps_its_empty_lines() {
    let out = render(&Vec::new(), "HELP", &Vec::new(), &Date::new(2024, 3, 9).unwrap());
    assert_eq!(
        out,
        "# This Makefile was done using 'domake'\n# Generated at 09/03/2024\n\n\nHELP\n\n"
    );
}

#[test]
fn helpers_are_passed_through() {
    let helpers = "help:\n\t@grep -E '^## ' $(MAKEFILE_LIST)\n\n# caf\u{e9}\n";
    let out = render(&Vec::new(), helpers, &Vec::new(), &Date::new(2024, 3, 9).unwrap());
    assert_eq!(
        out,
        format!(
            "# This Makefile was done using 'domake'\n# Generated at 09/03/2024\n\n\n{}\n\n",
            helpers
        )
    );
    let out = render(&Vec::new(), "", &Vec::new(), &Date::new(2024, 3, 9).unwrap());
    assert_eq!(out, "# This Makefile was done using 'domake'\n# Generated at 09/03/2024\n\n\n\n\n");
}

#[test]
fn makefile_holds_everything_in_order() {
    let includes = strings(&["b.mk", "a.mk"]);
    let commands = vec![
        command("two", "#Second", "one", &["echo 2", "echo 2 again"]),
        command("one", "#First", "", &["echo 1"]),
        command("two", "#Second", "one", &["echo 2", "echo 2 again"]),
    ];
    let out = render(&includes, "HELP", &commands, &Date::new(2001, 11, 5).unwrap());
    assert_eq!(
        out,
        "# This Makefile was done using 'domake'\n\
         # Generated at 05/11/2001\n\
         \n\
         include b.mk\n\
         include a.mk\n\
         \n\
         HELP\n\
         \n\
         ## two: Second\n\
         .PHONY: two\n\
         two: one\n\
         \techo 2\n\
         \techo 2 again\n\
         \n\
         ## one: First\n\
         .PHONY: one\n\
         one: \n\
         \techo 1\n\
         \n\
         ## two: Second\n\
         .PHONY: two\n\
         two: one\n\
         \techo 2\n\
         \techo 2 again\n\
         \n"
    );
}

#[test]
fn only_the_date_changes_with_the_date() {
    let includes = strings(&["a.mk"]);
    let commands = vec![command("one", "#First", "", &["echo 1"])];
    let first = render(&includes, "HELP", &commands, &Date::new(2001, 11, 5).unwrap());
    let second = render(&includes, "HELP", &commands, &Date::new(2002, 12, 6).unwrap());
    assert_ne!(first, second);
    assert_eq!(first.replace("05/11/2001", "06/12/2002"), second);
}
