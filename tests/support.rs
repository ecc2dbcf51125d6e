use pepper::args::{Args, ArgsError, ArgsOutcome};
use pepper::command::{parse_process_command, CommandError, CommandManager, ProcessOutput};
use pepper::protocol::{parse_content_span, ReadBuf, PendingRequestColection, RequestId, ResponseError};
use pepper::theme::{gruvbox_theme, Color};

#[test]
fn colors_round_trip() {
    assert_eq!(0x1d2021, Color(0x1d, 0x20, 0x21).into_u32());
    assert_eq!(Color(0xfa, 0xbd, 0x2f), Color::from_u32(0xfabd2f));
    assert_eq!(Color(0x12, 0x34, 0x56), Color::from_u32(0xff123456));
    let theme = gruvbox_theme();
    assert_eq!(Color(0xeb, 0xdb, 0xb2), theme.token_text);
    assert_eq!(Color(0x50, 0x49, 0x45), theme.inactive_cursor);
}

#[test]
fn pending_requests_reuse_slots() {
    let mut pending = PendingRequestColection::new();
    pending.add(RequestId(1), "initialize");
    pending.add(RequestId(2), "shutdown");
    assert_eq!(Some("initialize"), pending.take(RequestId(1)));
    assert_eq!(None, pending.take(RequestId(1)));
    pending.add(RequestId(3), "hover");
    assert_eq!(2, pending.pending_requests.len());
    assert_eq!(Some("hover"), pending.take(RequestId(3)));
    assert_eq!(-32700, ResponseError::parse_error().code);
    assert_eq!("MethodNotFound", ResponseError::method_not_found().message);
}

#[test]
fn content_header_is_found() {
    let message = b"Content-Length: 12\r\nOther: x\r\n\r\n{\"a\":1}more";
    assert_eq!(Some((32, 12)), parse_content_span(message));
    assert_eq!(None, parse_content_span(b"Content-Length: 3\r\n"));
    assert_eq!(None, parse_content_span(b"nothing"));
}

#[test]
fn process_output_splits_on_byte() {
    let mut commands = CommandManager::new();
    let first = commands.spawn_process(None, Some("in"), Some("line"), Some("echo"), Some(b'\n'));
    assert_eq!(0, first);
    assert_eq!(Some(b"in".to_vec()), commands.on_process_spawned(first));
    assert_eq!(None, commands.on_process_spawned(first));
    let out = commands.on_process_output(first, b"a\n\nb\xff\nrest");
    assert_eq!(2, out.len());
    assert!(matches!(&out[0], ProcessOutput::Commands(c) if c == "echo"));
    assert!(matches!(&out[1], ProcessOutput::InvalidUtf8));
    assert_eq!(b"rest".to_vec(), commands.spawned_processes[first].output);
    let second = commands.spawn_process(None, None, Some("$out"), Some("open $out; echo $out"), None);
    assert_eq!(1, second);
    assert!(commands.on_process_output(second, b"abc\n").is_empty());
    assert!(matches!(commands.on_process_exit(second, true), Some(ProcessOutput::Commands(c)) if c == "open abc\n; echo abc\n"));
    let third = commands.spawn_process(None, None, Some("L"), Some("print L"), Some(b'\n'));
    let out = commands.on_process_output(third, b"x\ny");
    assert!(matches!(&out[0], ProcessOutput::Commands(c) if c == "print x"));
    assert!(commands.on_process_exit(first, false).is_none());
    assert_eq!(0, commands.spawn_process(None, None, None, None, None));
}

fn strings(args: &[&str]) -> Vec<String> {
    args.iter().map(|a| a.to_string()).collect()
}

#[test]
fn launcher_arguments() {
    match Args::parse(&strings(&["-s", "abc1", "--server", "-c!", "x.pepper", "a.txt", "--", "-b", "c"])) {
        ArgsOutcome::Run(args) => {
            assert_eq!(Some("abc1".to_string()), args.session);
            assert!(args.server);
            assert!(!args.quit);
            assert_eq!(1, args.configs.len());
            assert_eq!("x.pepper", args.configs[0].path);
            assert!(args.configs[0].suppress_file_not_found);
            assert_eq!(strings(&["a.txt", "-b", "c"]), args.files);
        }
        _ => panic!("expected to run"),
    }
    assert!(matches!(Args::parse(&strings(&["x", "--help"])), ArgsOutcome::PrintHelp));
    assert!(matches!(Args::parse(&strings(&["-v"])), ArgsOutcome::PrintVersion));
    assert!(matches!(Args::parse(&strings(&["-s", "a-b"])), ArgsOutcome::Error(ArgsError::InvalidSessionName(_))));
    assert!(matches!(Args::parse(&strings(&["--session"])), ArgsOutcome::Error(ArgsError::ExpectedSession(_))));
    assert!(matches!(Args::parse(&strings(&["--config"])), ArgsOutcome::Error(ArgsError::ExpectedConfigPath(_))));
    assert!(matches!(Args::parse(&strings(&["--nope"])), ArgsOutcome::Error(ArgsError::InvalidOption(_))));
}

#[test]
fn read_buffer_yields_whole_messages() {
    let mut rb = ReadBuf::new();
    let incoming = b"Content-Length: 2\r\n\r\nhiContent-Length: 3\r\n\r\nab";
    rb.buf[..incoming.len()].copy_from_slice(incoming);
    rb.on_read(incoming.len());
    let (from, to) = rb.take_content().unwrap();
    assert_eq!(b"hi", &rb.buf[from..to]);
    assert_eq!(None, rb.take_content());
    rb.buf[rb.write_index] = b'c';
    rb.on_read(1);
    let (from, to) = rb.take_content().unwrap();
    assert_eq!(b"abc", &rb.buf[from..to]);
    assert_eq!((0, 0), (rb.read_index, rb.write_index));
    rb.make_room(10000);
    assert!(rb.buf.len() >= 10000);
}

#[test]
fn process_command_line_and_environment() {
    let command = "rg -n 'a b' --color=never";
    let environment = "A = 1 'B' = \"two words\"";
    let parsed = parse_process_command(command, environment).ok().unwrap();
    assert_eq!("rg", parsed.name.as_str(command));
    let args: Vec<&str> = parsed.args.iter().map(|t| t.as_str(command)).collect();
    assert_eq!(vec!["-n", "a b", "--color", "=", "never"], args);
    let env: Vec<(&str, &str)> =
        parsed.env.iter().map(|(k, v)| (k.as_str(environment), v.as_str(environment))).collect();
    assert_eq!(vec![("A", "1"), ("B", "two words")], env);

    assert!(matches!(parse_process_command("", ""), Err(CommandError::InvalidToken(_))));
    assert!(matches!(parse_process_command("'x", ""), Err(CommandError::UnterminatedToken(_))));
    assert!(matches!(parse_process_command("x 'y", ""), Err(CommandError::InvalidToken(_))));
    assert!(matches!(parse_process_command("x", "A"), Err(CommandError::UnterminatedToken(_))));
    assert!(matches!(parse_process_command("x", "A B"), Err(CommandError::InvalidToken(_))));
    assert!(matches!(parse_process_command("x", "A ="), Err(CommandError::UnterminatedToken(_))));
    assert!(matches!(parse_process_command("x", "-A = 1"), Err(CommandError::InvalidToken(_))));

    let mut commands = CommandManager::new();
    commands.push_output_str("a");
    commands.push_output_str("b");
    assert_eq!("ab", commands.output);
}
