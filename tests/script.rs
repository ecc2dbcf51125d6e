use pepper::script::{command_ranges, CommandIter};

fn all(script: &str) -> Vec<&str> {
    let mut iter = CommandIter::new(script);
    let mut out = Vec::new();
    while let Some(command) = iter.next() {
        out.push(command);
    }
    out
}

#[test]
fn multi_command_line_parsing() {
    let mut commands = CommandIter::new("command0\ncommand1");
    assert_eq!(Some("command0"), commands.next());
    assert_eq!(Some("command1"), commands.next());
    assert_eq!(None, commands.next());

    let mut commands = CommandIter::new("command0\n\n\ncommand1");
    assert_eq!(Some("command0"), commands.next());
    assert_eq!(Some("command1"), commands.next());
    assert_eq!(None, commands.next());

    let mut commands = CommandIter::new("command0\\\n still command0\ncommand1");
    assert_eq!(Some("command0\\\n still command0"), commands.next());
    assert_eq!(Some("command1"), commands.next());
    assert_eq!(None, commands.next());

    let mut commands = CommandIter::new("   #command0");
    assert_eq!(None, commands.next());

    let mut commands = CommandIter::new("command0 # command1");
    assert_eq!(Some("command0 "), commands.next());
    assert_eq!(None, commands.next());

    let mut commands = CommandIter::new("    # command0\ncommand1");
    assert_eq!(Some("command1"), commands.next());
    assert_eq!(None, commands.next());

    let mut commands =
        CommandIter::new("command0# comment\n\n# more comment\n\n# one more comment\ncommand1");
    assert_eq!(Some("command0"), commands.next());
    assert_eq!(Some("command1"), commands.next());
    assert_eq!(None, commands.next());
}

#[test]
fn command_multi_command_line_parsing() {
    let mut commands = CommandIter::new("command0\ncommand1");
    assert_eq!(Some("command0"), commands.next());
    assert_eq!(Some("command1"), commands.next());
    assert_eq!(None, commands.next());

    let mut commands = CommandIter::new("command0\n\n\ncommand1");
    assert_eq!(Some("command0"), commands.next());
    assert_eq!(Some("command1"), commands.next());
    assert_eq!(None, commands.next());

    let mut commands = CommandIter::new("command0 {\n still command0\n}\ncommand1");
    assert_eq!(Some("command0 {\n still command0\n}"), commands.next());
    assert_eq!(Some("command1"), commands.next());
    assert_eq!(None, commands.next());

    let mut commands = CommandIter::new("command0 }}} {\n {\n still command0\n}\n}\ncommand1");
    assert_eq!(Some("command0 }}} {\n {\n still command0\n}\n}"), commands.next());
    assert_eq!(Some("command1"), commands.next());
    assert_eq!(None, commands.next());

    let mut commands = CommandIter::new("   #command0");
    assert_eq!(None, commands.next());

    let mut commands = CommandIter::new("command0 # command1");
    assert_eq!(Some("command0 "), commands.next());
    assert_eq!(None, commands.next());

    let mut commands = CommandIter::new("    # command0\ncommand1");
    assert_eq!(Some("command1"), commands.next());
    assert_eq!(None, commands.next());

    let mut commands =
        CommandIter::new("command0# comment\n\n# more comment\n\n# one more comment\ncommand1");
    assert_eq!(Some("command0"), commands.next());
    assert_eq!(Some("command1"), commands.next());
    assert_eq!(None, commands.next());

    let mut commands = CommandIter::new("command0;command1");
    assert_eq!(Some("command0"), commands.next());
    assert_eq!(Some("command1"), commands.next());
    assert_eq!(None, commands.next());

    let mut commands = CommandIter::new(";;  command0;   ;;command1   ;");
    assert_eq!(Some("command0"), commands.next());
    assert_eq!(Some("command1   "), commands.next());
    assert_eq!(None, commands.next());
}

#[test]
fn brace_group_across_newlines() {
    assert_eq!(vec!["cmd {\n still cmd\n}", "next"], all("cmd {\n still cmd\n}\nnext"));
    assert_eq!(vec!["{a;\nb # c\n{d}}"], all("{a;\nb # c\n{d}}"));
    assert_eq!(vec!["x {unclosed\ny"], all("x {unclosed\ny"));
}

#[test]
fn comments_and_separators() {
    assert_eq!(vec!["a", "b   "], all(";;  a;   ;;b   ;"));
    assert_eq!(vec!["a ", "b"], all("a # ignored\nb"));
    assert!(all("").is_empty());
    assert!(all(" \n\t ;").is_empty());
}

#[test]
fn iteration_is_repeatable() {
    let script = "a; b {c\n} # d\ne";
    assert_eq!(all(script), all(script));
    let ranges = command_ranges(script);
    assert_eq!(ranges, command_ranges(script));
    assert_eq!(3, ranges.len());
    assert_eq!("b {c\n} ", &script[ranges[1].from..ranges[1].to]);
}
