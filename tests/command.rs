use pepper::command::{
    BuiltinCommand, CommandArgs, Dispatch, RequestCommand, CommandError, CommandHandler, CommandManager, CommandOperation,
    CommandSource, CommandValue, MacroCommand, HISTORY_CAPACITY,
};
use pepper::client::ClientHandle;
use pepper::token::{find_balanced, CommandToken, CommandTokenIter, CommandTokenKind};

fn create_commands() -> CommandManager {
    CommandManager::with_builtins(vec![BuiltinCommand {
        name: "command-name",
        alias: "c",
        help: "",
        hidden: false,
        accepts_bang: true,
        completions: &[],
    }])
}

fn collect<'a>(text: &'a str, mut args: CommandArgs<'a>) -> Vec<&'a str> {
    let mut values = Vec::new();
    loop {
        match args.try_next() {
            Ok(Some(CommandValue::Token(token))) => values.push(token.as_str(text)),
            Ok(Some(CommandValue::Register(_))) => panic!("unexpected register"),
            Ok(None) => break,
            Err(error) => panic!("error parsing args {:?}", error),
        }
    }
    values
}

fn parse_args<'a>(commands: &CommandManager, command: &'a str) -> CommandArgs<'a> {
    match commands.parse(command) {
        Ok((_, args)) => args,
        Err(_) => panic!("command '{}' parse error", command),
    }
}

fn flag_text<'a>(text: &'a str, value: &Option<CommandValue>) -> Option<&'a str> {
    match value {
        Some(CommandValue::Token(token)) => Some(token.as_str(text)),
        Some(CommandValue::Register(_)) => panic!("unexpected register"),
        None => None,
    }
}

fn assert_bang(commands: &CommandManager, command: &str, expect_bang: bool) {
    let (source, args) = match commands.parse(command) {
        Ok(result) => result,
        Err(e) => panic!("command parse error {:?}", e),
    };
    assert!(matches!(source, CommandSource::Builtin(0)));
    assert_eq!(expect_bang, args.bang);
}

fn assert_invalid_name(commands: &CommandManager, command: &str, expect: &str) {
    match commands.parse(command) {
        Ok(_) => panic!("command parsed successfully"),
        Err(CommandError::InvalidCommandName(token)) => assert_eq!(expect, token.as_str(command)),
        Err(e) => panic!("other error occurred {:?}", e),
    }
}

fn assert_not_found(commands: &CommandManager, command: &str, expect: &str) {
    match commands.parse(command) {
        Ok(_) => panic!("command parsed successfully"),
        Err(CommandError::CommandNotFound(token)) => assert_eq!(expect, token.as_str(command)),
        Err(e) => panic!("other error occurred {:?}", e),
    }
}

fn first_unterminated(text: &str) -> String {
    let commands = create_commands();
    let mut args = parse_args(&commands, text);
    loop {
        match args.try_next() {
            Ok(Some(_)) => (),
            Ok(None) => panic!("no unterminated token"),
            Err(CommandError::UnterminatedToken(token)) => return token.as_str(text).to_string(),
            Err(e) => panic!("other error occurred {:?}", e),
        }
    }
}

#[test]
fn command_parsing() {
    let commands = create_commands();
    assert_bang(&commands, "command-name", false);
    assert_bang(&commands, "  command-name  ", false);
    assert_bang(&commands, "  command-name!  ", true);
    assert_bang(&commands, "  command-name!", true);
}

#[test]
fn command_command_parsing() {
    let commands = create_commands();
    assert_bang(&commands, "command-name", false);
    assert_bang(&commands, "  command-name  ", false);
    assert_bang(&commands, "  command-name!  ", true);
    assert_bang(&commands, "  command-name!", true);
}

#[test]
fn arg_parsing() {
    let commands = create_commands();
    let text = "c  aaa  bbb  ccc  ";
    assert_eq!(["aaa", "bbb", "ccc"], &collect(text, parse_args(&commands, text))[..]);
    let text = "c  'aaa'  \"bbb\"  ccc  ";
    assert_eq!(["aaa", "bbb", "ccc"], &collect(text, parse_args(&commands, text))[..]);
    let text = "c  'aaa'\"bbb\"\"ccc\"ddd  ";
    assert_eq!(["aaa", "bbb", "ccc", "ddd"], &collect(text, parse_args(&commands, text))[..]);

    let text = "c \\\n-switch'value'\\\n-option=\"option value!\"\\\n";
    let args = parse_args(&commands, text);
    let mut flags = vec![("switch", None), ("option", None)];
    if args.get_flags(&mut flags).is_err() {
        panic!("error parsing args");
    }
    assert_eq!(Some(""), flag_text(text, &flags[0].1));
    assert_eq!(Some("option value!"), flag_text(text, &flags[1].1));
    assert_eq!(["value"], &collect(text, args)[..]);
}

#[test]
fn command_arg_parsing() {
    let commands = create_commands();
    let text = "c  aaa  bbb  ccc  ";
    assert_eq!(["aaa", "bbb", "ccc"], &collect(text, parse_args(&commands, text))[..]);
    let text = "c  'aaa'  \"bbb\"  ccc  ";
    assert_eq!(["aaa", "bbb", "ccc"], &collect(text, parse_args(&commands, text))[..]);
    let text = "c  \"aaa\"\"bbb\"ccc  ";
    assert_eq!(["aaa", "bbb", "ccc"], &collect(text, parse_args(&commands, text))[..]);
    let text = "c  {aaa}{bbb}ccc  ";
    assert_eq!(["aaa", "bbb", "ccc"], &collect(text, parse_args(&commands, text))[..]);
    let text = "c  {aaa}{{bb}b}ccc  ";
    assert_eq!(["aaa", "{bb}b", "ccc"], &collect(text, parse_args(&commands, text))[..]);

    let text = "c -option=value aaa";
    let args = parse_args(&commands, text);
    let mut flags = vec![("switch", None), ("option", None)];
    if args.get_flags(&mut flags).is_err() {
        panic!("error parsing args");
    }
    assert_eq!(None, flag_text(text, &flags[0].1));
    assert_eq!(Some("value"), flag_text(text, &flags[1].1));
    assert_eq!(["aaa"], &collect(text, args)[..]);

    let text = "c 'aaa' -option=value";
    let args = parse_args(&commands, text);
    let mut flags = vec![("switch", None), ("option", None)];
    if args.get_flags(&mut flags).is_err() {
        panic!("error parsing args");
    }
    assert_eq!(None, flag_text(text, &flags[0].1));
    assert_eq!(Some("value"), flag_text(text, &flags[1].1));
    assert_eq!(["aaa"], &collect(text, args)[..]);

    let text = "c aaa -switch bbb -option=value ccc";
    let args = parse_args(&commands, text);
    let mut flags = vec![("switch", None), ("option", None)];
    if args.get_flags(&mut flags).is_err() {
        panic!("error parsing args");
    }
    assert_eq!(Some(""), flag_text(text, &flags[0].1));
    assert_eq!(Some("value"), flag_text(text, &flags[1].1));
    assert_eq!(["aaa", "bbb", "ccc"], &collect(text, args)[..]);

    let text = "c -switch -option=value aaa";
    let args = parse_args(&commands, text);
    let mut flags = vec![("switch", None), ("option", None)];
    if args.get_flags(&mut flags).is_err() {
        panic!("error parsing args");
    }
    assert_eq!(Some(""), flag_text(text, &flags[0].1));
    assert_eq!(Some("value"), flag_text(text, &flags[1].1));
    assert_eq!(["aaa"], &collect(text, args)[..]);
}

#[test]
fn command_parsing_fail() {
    let commands = create_commands();
    assert_invalid_name(&commands, "", "");
    assert_invalid_name(&commands, "   ", "");
    assert_invalid_name(&commands, " !", "");
    assert_invalid_name(&commands, "!  'aa'", "");

    let text = "c -option=";
    let args = parse_args(&commands, text);
    let mut flags = vec![("switch", None), ("option", None)];
    match args.get_flags(&mut flags) {
        Err(CommandError::InvalidToken(token)) => assert_eq!("=", token.as_str(text)),
        Err(e) => panic!("other error occurred {:?}", e),
        Ok(()) => panic!("command parsed successfully"),
    }

    assert_not_found(&commands, "  a \"aa\"", "a");

    assert_eq!("abc", first_unterminated("c! 'abc"));
    assert_eq!("", first_unterminated("c! '"));
    assert_eq!("'", first_unterminated("c! \"'"));

    let mut text = String::new();
    text.push('c');
    for _ in 0..8 {
        text.push_str(" a");
    }
    text.push_str(" b");
    let mut args = parse_args(&commands, &text);
    for _ in 0..8 {
        assert!(matches!(args.try_next(), Ok(Some(_))));
    }
    match args.assert_empty() {
        Err(CommandError::TooManyArguments(token, 8)) => assert_eq!("b", token.as_str(&text)),
        Err(e) => panic!("other error occurred {:?}", e),
        Ok(()) => panic!("command parsed successfully"),
    }
}

#[test]
fn command_command_parsing_fail() {
    let commands = create_commands();
    assert_invalid_name(&commands, "", "");
    assert_invalid_name(&commands, "   ", "");
    assert_invalid_name(&commands, " !", "");
    assert_invalid_name(&commands, "!  'aa'", "");
    assert_not_found(&commands, "  a \"bb\"", "a");

    fn assert_unterminated(text: &str) {
        let mut args = CommandArgs { bang: false, tokens: CommandTokenIter::new(text), len: 0 };
        loop {
            match args.try_next() {
                Ok(Some(_)) => (),
                Ok(None) => panic!("no unterminated token"),
                Err(CommandError::UnterminatedToken(_)) => return,
                Err(_) => panic!("other error"),
            }
        }
    }

    assert_unterminated("0 1 'abc");
    assert_unterminated("0 1 '");
    assert_unterminated("0 1 \"'");
}

#[test]
fn operation_size() {
    assert_eq!(1, std::mem::size_of::<CommandOperation>());
    assert_eq!(1, std::mem::size_of::<Option<CommandOperation>>());
}

fn next_token<'a>(text: &'a str, tokens: &mut CommandTokenIter<'a>) -> Option<(CommandTokenKind, &'a str)> {
    tokens.next().map(|(kind, token)| (kind, token.as_str(text)))
}

#[test]
fn command_tokens() {
    let text = "value -flag";
    let mut tokens = CommandTokenIter::new(text);
    assert!(matches!(next_token(text, &mut tokens), Some((CommandTokenKind::Text, "value"))));
    assert!(matches!(next_token(text, &mut tokens), Some((CommandTokenKind::Flag, "-flag"))));
    assert!(tokens.next().is_none());

    let text = "value --long-flag";
    let mut tokens = CommandTokenIter::new(text);
    assert!(matches!(next_token(text, &mut tokens), Some((CommandTokenKind::Text, "value"))));
    assert!(matches!(next_token(text, &mut tokens), Some((CommandTokenKind::Flag, "--long-flag"))));
    assert!(tokens.next().is_none());
}

#[test]
fn test_find_balanced() {
    assert_eq!(None, find_balanced(b"", b'{', b'}'));
    assert_eq!(Some(0), find_balanced(b"}", b'{', b'}'));
    assert_eq!(Some(2), find_balanced(b"  }}", b'{', b'}'));
    assert_eq!(Some(2), find_balanced(b"{}}", b'{', b'}'));
    assert_eq!(Some(4), find_balanced(b"{{}}}", b'{', b'}'));
}

#[test]
fn token_offsets_cover_logical_text() {
    let text = "cmd 'a b' \"c\" {d {e}} -f=g h";
    let mut tokens = CommandTokenIter::new(text);
    let mut seen = Vec::new();
    while let Some((kind, token)) = tokens.next() {
        seen.push((kind, token.as_str(text)));
    }
    assert_eq!(
        vec![
            (CommandTokenKind::Text, "cmd"),
            (CommandTokenKind::Text, "a b"),
            (CommandTokenKind::Text, "c"),
            (CommandTokenKind::Text, "d {e}"),
            (CommandTokenKind::Flag, "-f"),
            (CommandTokenKind::Equals, "="),
            (CommandTokenKind::Text, "g"),
            (CommandTokenKind::Text, "h"),
        ],
        seen
    );
    let mut tokens = CommandTokenIter::new("x {a");
    tokens.next();
    assert_eq!(Some((CommandTokenKind::Unterminated, CommandToken { from: 3, to: 4 })), tokens.next());
}

#[test]
fn simple_command_no_args() {
    let commands = create_commands();
    let text = "command-name";
    let (source, mut args) = commands.parse(text).unwrap();
    assert_eq!(CommandSource::Builtin(0), source);
    assert!(!args.bang);
    assert!(matches!(args.try_next(), Ok(None)));

    struct Recorder(Vec<usize>);
    impl CommandHandler for Recorder {
        fn call_builtin<'a>(
            &mut self,
            index: usize,
            _args: CommandArgs<'a>,
        ) -> Result<Option<CommandOperation>, CommandError> {
            self.0.push(index);
            Ok(Some(CommandOperation::Quit))
        }
        fn send_request(&mut self, _client_handle: ClientHandle, _command: &str) {}
    }
    let mut recorder = Recorder(Vec::new());
    assert!(matches!(commands.eval(&mut recorder, text, 8), Ok(Some(CommandOperation::Quit))));
    assert_eq!(vec![0], recorder.0);
}

#[test]
fn bang_and_quoting() {
    let commands = create_commands();
    let text = "c!  'a a'  \"b\"  c";
    let (source, args) = commands.parse(text).unwrap();
    assert_eq!(CommandSource::Builtin(0), source);
    assert!(args.bang);
    assert_eq!(["a a", "b", "c"], &collect(text, args)[..]);
}

#[test]
fn bang_refused_by_builtin() {
    let commands = CommandManager::with_builtins(vec![BuiltinCommand {
        name: "quit",
        alias: "q",
        help: "",
        hidden: false,
        accepts_bang: false,
        completions: &[],
    }]);
    assert!(matches!(commands.parse("q!"), Err(CommandError::CommandDoesNotAcceptBang)));
    assert!(commands.parse("q").is_ok());
}

#[test]
fn flags_switch_and_option() {
    let commands = create_commands();
    let text = "c -switch -option=value aaa";
    let args = parse_args(&commands, text);
    let mut flags = vec![("switch", None), ("option", None)];
    assert!(args.get_flags(&mut flags).is_ok());
    assert_eq!(Some(""), flag_text(text, &flags[0].1));
    assert_eq!(Some("value"), flag_text(text, &flags[1].1));
    assert_eq!(["aaa"], &collect(text, args)[..]);

    let text = "c -unknown";
    let args = parse_args(&commands, text);
    match args.get_flags(&mut flags) {
        Err(CommandError::UnknownFlag(token)) => assert_eq!("-unknown", token.as_str(text)),
        other => panic!("unexpected {:?}", other),
    }
    let text = "c = a";
    let mut args = parse_args(&commands, text);
    assert!(matches!(args.try_next(), Err(CommandError::InvalidToken(_))));
}

#[test]
fn too_few_arguments_counts_asked() {
    let commands = create_commands();
    let mut args = parse_args(&commands, "c a");
    assert!(args.next().is_ok());
    assert!(matches!(args.next(), Err(CommandError::TooFewArguments(_, 2))));
}

struct Quiet;

impl CommandHandler for Quiet {
    fn call_builtin<'a>(
        &mut self,
        _index: usize,
        _args: CommandArgs<'a>,
    ) -> Result<Option<CommandOperation>, CommandError> {
        Ok(None)
    }
    fn send_request(&mut self, _client_handle: ClientHandle, _command: &str) {}
}

fn macro_named(name: &str, body: &str) -> MacroCommand {
    MacroCommand {
        name: name.to_string(),
        help: String::new(),
        hidden: false,
        params: Vec::new(),
        commands: body.to_string(),
        source_path: None,
    }
}

#[test]
fn macro_error_framing() {
    let mut commands = create_commands();
    commands.register_macro(macro_named("m", "unknown-cmd"));
    let error = match commands.eval(&mut Quiet, "m", 8) {
        Err(error) => error,
        Ok(_) => panic!("macro evaluated"),
    };
    match &error {
        CommandError::MacroCommandError { index, command, error } => {
            assert_eq!(0, *index);
            assert_eq!("unknown-cmd", command);
            match **error {
                CommandError::CommandNotFound(token) => assert_eq!("unknown-cmd", token.as_str(command)),
                ref other => panic!("unexpected inner error {:?}", other),
            }
        }
        other => panic!("unexpected error {:?}", other),
    }
    let text = error.display("m", None, &commands).fmt();
    assert_eq!(
        "m\n^\n\n@ command macro 'm':\nunknown-cmd\n^^^^^^^^^^^\nno such command 'unknown-cmd'",
        text
    );
}

#[test]
fn macro_body_runs_each_command() {
    struct Counter(usize);
    impl CommandHandler for Counter {
        fn call_builtin<'a>(
            &mut self,
            _index: usize,
            _args: CommandArgs<'a>,
        ) -> Result<Option<CommandOperation>, CommandError> {
            self.0 += 1;
            Ok(None)
        }
        fn send_request(&mut self, _client_handle: ClientHandle, _command: &str) {}
    }
    let mut commands = create_commands();
    commands.register_macro(macro_named("m", "c a; c b\nc {x;y}"));
    let mut counter = Counter(0);
    assert!(matches!(commands.eval(&mut counter, "m", 8), Ok(None)));
    assert_eq!(3, counter.0);
    assert!(matches!(commands.eval(&mut counter, "m!", 8), Err(CommandError::CommandDoesNotAcceptBang)));
    assert!(matches!(commands.parse("m!"), Err(CommandError::CommandDoesNotAcceptBang)));
    assert!(matches!(commands.eval(&mut counter, "m x", 8), Err(CommandError::TooManyArguments(_, 0))));

    commands.register_macro(macro_named("loop", "loop"));
    match commands.eval(&mut counter, "loop", 3) {
        Err(CommandError::MacroCommandError { .. }) => (),
        other => panic!("unexpected {:?}", other.err()),
    }
}

#[test]
fn macro_registration_replaces_by_name() {
    let mut commands = create_commands();
    commands.register_macro(macro_named("m", "a"));
    commands.register_macro(macro_named("n", "b"));
    commands.register_macro(macro_named("m", "c"));
    assert_eq!(2, commands.macro_commands().len());
    assert_eq!("c", commands.macro_commands()[0].commands);
    assert_eq!(Some(CommandSource::Macro(1)), commands.find_command("n"));
    assert_eq!(Some(CommandSource::Builtin(0)), commands.find_command("c"));
    assert_eq!(None, commands.find_command("zzz"));
}

#[test]
fn history_rules() {
    let mut commands = CommandManager::new();
    commands.add_to_history("");
    commands.add_to_history(" leading");
    assert_eq!(0, commands.history_len());
    commands.add_to_history("a");
    commands.add_to_history("a");
    assert_eq!(1, commands.history_len());
    for i in 0..20 {
        commands.add_to_history(&format!("e{}", i));
    }
    assert_eq!(HISTORY_CAPACITY, commands.history_len());
    assert_eq!("e10", commands.history_entry(0));
    assert_eq!("e19", commands.history_entry(9));
    assert_eq!("", commands.history_entry(10));
    for i in 1..commands.history_len() {
        assert_ne!(commands.history_entry(i - 1), commands.history_entry(i));
    }
}

#[test]
fn error_display_caret_by_characters() {
    let commands = create_commands();
    let text = "é zz";
    let error = CommandError::UnknownFlag(CommandToken { from: 3, to: 5 });
    assert_eq!("é zz\n  ^^\nunknown flag 'zz'", error.display(text, None, &commands).fmt());
    let error = CommandError::TooFewArguments(CommandToken { from: 0, to: 0 }, 12);
    assert_eq!(
        "@ \"cfg\"\né zz\n^\ncommand expects at least 12 arguments",
        error.display(text, Some("cfg"), &commands).fmt()
    );
    assert_eq!("no buffer opened", CommandError::NoBufferOpened.display(text, None, &commands).fmt());
    let error = CommandError::InvalidToken(CommandToken { from: 0, to: 2 });
    assert_eq!(
        "@ \"a\\\"b\"\né zz\n^\ninvalid token 'é'",
        error.display(text, Some("a\"b"), &commands).fmt()
    );
    let mut args = parse_args(&commands, "c");
    assert!(matches!(args.next(), Err(CommandError::TooFewArguments(_, 1))));
}

#[test]
fn script_evaluation_stops_at_error() {
    let mut commands = create_commands();
    commands.register_macro(macro_named("m", "c"));
    assert!(matches!(commands.eval_commands_then_output(&mut Quiet, "", None, 8), (None, None)));
    assert!(matches!(commands.eval_commands_then_output(&mut Quiet, "m; c a", None, 8), (None, None)));
    let (op, error) = commands.eval_commands_then_output(&mut Quiet, "c\nnope x\nc", Some("init.pepper"), 8);
    assert!(op.is_none());
    assert_eq!(
        "@ \"init.pepper\"\nnope x\n^^^^\nno such command 'nope'",
        error.unwrap()
    );
}

#[test]
fn dispatch_resolves_commands() {
    let mut commands = create_commands();
    commands.register_macro(macro_named("m", "c"));
    match commands.dispatch("c! x") {
        Ok(Dispatch::Builtin(0, mut args)) => {
            assert!(args.bang);
            assert!(matches!(args.try_next(), Ok(Some(_))));
        }
        _ => panic!("not a builtin"),
    }
    assert!(matches!(commands.dispatch("m"), Ok(Dispatch::Macro(0, _))));
    assert!(matches!(commands.dispatch("m -f"), Err(CommandError::UnknownFlag(_))));
    assert!(matches!(commands.dispatch("zz"), Err(CommandError::CommandNotFound(_))));
    commands.register_request(RequestCommand {
        name: "r".to_string(),
        help: String::new(),
        hidden: false,
        client_handle: ClientHandle(4),
    });
    assert!(matches!(commands.dispatch("r a b"), Ok(Dispatch::Request(ClientHandle(4)))));
    assert!(matches!(commands.dispatch("r!"), Err(CommandError::CommandDoesNotAcceptBang)));
}

#[test]
fn macro_parameters_are_substituted() {
    let mut commands = create_commands();
    let mut greet = macro_named("greet", "c $who; nope$who");
    greet.params = vec!["$who".to_string()];
    commands.register_macro(greet);
    match commands.eval(&mut Quiet, "greet bob", 8) {
        Err(CommandError::MacroCommandError { command, error, .. }) => {
            assert_eq!("nopebob", command);
            assert!(matches!(*error, CommandError::CommandNotFound(_)));
        }
        other => panic!("unexpected {:?}", other.err()),
    }
    assert!(matches!(commands.eval(&mut Quiet, "greet", 8), Err(CommandError::TooFewArguments(_, 1))));
    assert!(matches!(commands.eval(&mut Quiet, "greet a b", 8), Err(CommandError::TooManyArguments(_, 1))));
    match commands.dispatch("greet 'x y'") {
        Ok(Dispatch::Macro(0, values)) => assert_eq!("x y", values[0].as_str("greet 'x y'")),
        _ => panic!("not a macro"),
    }
}
