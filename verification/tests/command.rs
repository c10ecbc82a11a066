use mscfb::command::{eq_ignore_ascii_case, Command, CommandKind};

fn parse(args: &[&str]) -> Command {
    Command::from_arguments(args.iter().map(|s| s.to_string()).collect())
}

#[test]
fn positional_arguments_fill_in_order() {
    let c = parse(&["list", "file.cfb", "/Docs", "out"]);
    assert_eq!(c.name.as_deref(), Some("list"));
    assert_eq!(c.compound_file.as_deref(), Some("file.cfb"));
    assert_eq!(c.directory_path.as_deref(), Some("/Docs"));
    assert_eq!(c.destination.as_deref(), Some("out"));
    assert_eq!(c.kind(), Some(CommandKind::List));
}

#[test]
fn flags_take_the_next_argument() {
    let c = parse(&["-F", "file.cfb", "cat", "-d", "Big", "-o"]);
    assert_eq!(c.name.as_deref(), Some("cat"));
    assert_eq!(c.compound_file.as_deref(), Some("file.cfb"));
    assert_eq!(c.directory_path.as_deref(), Some("Big"));
    assert_eq!(c.destination, None);
    assert_eq!(c.kind(), Some(CommandKind::Cat));
}

#[test]
fn arguments_after_a_full_command_are_ignored() {
    let c = parse(&["tree", "a", "b", "c", "extra", "-f", "other"]);
    assert_eq!(c.compound_file.as_deref(), Some("a"));
    assert_eq!(c.destination.as_deref(), Some("c"));
    let c = parse(&["tree", "a", "b", "c", "-f", "other"]);
    assert_eq!(c.compound_file.as_deref(), Some("other"));
    assert_eq!(c.kind(), Some(CommandKind::Tree));
}

#[test]
fn unknown_or_missing_commands() {
    assert_eq!(parse(&[]).kind(), None);
    assert_eq!(parse(&["frobnicate"]).kind(), None);
    assert_eq!(parse(&["UnPack"]).kind(), Some(CommandKind::Unpack));
}

#[test]
fn ascii_case_comparison() {
    assert!(eq_ignore_ascii_case("LiSt", "list"));
    assert!(!eq_ignore_ascii_case("list", "lists"));
    assert!(!eq_ignore_ascii_case("É", "é"));
}
