use vstd::prelude::*;
use vstd::string::*;
use vstd::utf8::*;

use crate::command::{CommandError, CommandManager};
use crate::token::{token_at, CommandToken};

verus! {

pub uninterp spec fn debug_text(s: Seq<char>) -> Seq<char>;

/// Relies on `Debug` for `str` (`format!("{:?}", s)`): the text quoted, with quotes,
/// backslashes and control characters escaped.
#[verifier::external_body]
fn debug_quoted(s: &str) -> (r: String)
    ensures
        r@ == debug_text(s@),
{
    format!("{:?}", s)
}

/// The characters that `t` covers in the command whose characters are `c`.
pub open spec fn token_text(c: Seq<char>, t: CommandToken) -> Seq<char> {
    let b = encode_utf8(c);
    if t.from <= t.to && is_char_boundary(b, t.from as int) && is_char_boundary(b, t.to as int) {
        decode_utf8(b.subrange(t.from as int, t.to as int))
    } else {
        Seq::empty()
    }
}

/// Number of characters that start in bytes `from..to` (bytes past the end are not counted).
pub open spec fn char_starts(b: Seq<u8>, from: int, to: int) -> nat
    decreases to - from,
{
    if from >= to || from >= b.len() || from < 0 {
        0
    } else {
        (if is_continuation_byte(b[from]) {
            0nat
        } else {
            1nat
        }) + char_starts(b, from + 1, to)
    }
}

pub open spec fn repeat(c: char, n: nat) -> Seq<char> {
    Seq::new(n, |_i: int| c)
}

pub open spec fn digit(d: nat) -> char {
    if d == 0 {
        '0'
    } else if d == 1 {
        '1'
    } else if d == 2 {
        '2'
    } else if d == 3 {
        '3'
    } else if d == 4 {
        '4'
    } else if d == 5 {
        '5'
    } else if d == 6 {
        '6'
    } else if d == 7 {
        '7'
    } else if d == 8 {
        '8'
    } else {
        '9'
    }
}

/// The decimal digits of `n`.
pub open spec fn decimal(n: nat) -> Seq<char>
    decreases n,
{
    if n < 10 {
        seq![digit(n)]
    } else {
        decimal(n / 10) + seq![digit(n % 10)]
    }
}

/// The lines above an error message: the source path if any, the command, and a caret row
/// under the token, aligned by characters and at least one caret long.
pub open spec fn frame(c: Seq<char>, path: Option<Seq<char>>, t: CommandToken) -> Seq<char> {
    let b = encode_utf8(c);
    let offset = char_starts(b, 0, t.from as int);
    let width = char_starts(b, t.from as int, t.to as int);
    let carets = if width == 0 {
        1nat
    } else {
        width
    };
    let head = match path {
        Some(p) => "@ "@ + p + "\n"@,
        None => Seq::empty(),
    };
    head + c + "\n"@ + repeat(' ', offset) + repeat('^', carets) + "\n"@
}

/// The first token of the command, or an empty one at its start.
pub open spec fn first_token(c: Seq<char>) -> CommandToken {
    match token_at(encode_utf8(c), 0) {
        Some(t) => CommandToken { from: t.1 as usize, to: t.2 as usize },
        None => CommandToken { from: 0, to: 0 },
    }
}

pub open spec fn quoted(c: Seq<char>, t: CommandToken) -> Seq<char> {
    "'"@ + token_text(c, t) + "'"@
}

/// How an error reads, for the command whose characters are `c`, read from `path`.
pub open spec fn error_text(
    e: CommandError,
    c: Seq<char>,
    path: Option<Seq<char>>,
    m: CommandManager,
) -> Seq<char>
    decreases e,
{
    match e {
        CommandError::InvalidCommandName(t) => frame(c, path, t) + "invalid command name "@ + quoted(c, t),
        CommandError::CommandNotFound(t) => frame(c, path, t) + "no such command "@ + quoted(c, t),
        CommandError::CommandDoesNotAcceptBang => frame(c, path, first_token(c))
            + "command does not accept bang"@,
        CommandError::UnterminatedToken(t) => frame(c, path, t) + "unterminated token"@,
        CommandError::InvalidToken(t) => frame(c, path, t) + "invalid token "@ + quoted(c, t),
        CommandError::TooFewArguments(t, n) => frame(c, path, t) + "command expects at least "@
            + decimal(n as nat) + " arguments"@,
        CommandError::TooManyArguments(t, n) => frame(c, path, t) + "command expects at most "@
            + decimal(n as nat) + " arguments"@,
        CommandError::UnknownFlag(t) => frame(c, path, t) + "unknown flag "@ + quoted(c, t),
        CommandError::UnsavedChanges =>
            "there are unsaved changes. try appending a '!' to command name to force execute"@,
        CommandError::NoBufferOpened => "no buffer opened"@,
        CommandError::InvalidBufferHandle(h) => "invalid buffer handle "@ + decimal(h as nat),
        CommandError::InvalidPath(t) => frame(c, path, t) + "invalid path "@ + quoted(c, t),
        CommandError::ParseArgError { arg, expected } => frame(c, path, arg) + "could not parse "@
            + quoted(c, arg) + " as "@ + expected@,
        CommandError::OpenFileError { path: p, message } => frame(c, path, p)
            + "could not open file "@ + quoted(c, p) + ": "@ + message@,
        CommandError::BufferError(_, message) => message@,
        CommandError::BufferedKeysParseError(t) => frame(c, path, t) + "could not parse keys "@
            + quoted(c, t),
        CommandError::ConfigNotFound(t) => frame(c, path, t) + "no such config "@ + quoted(c, t),
        CommandError::InvalidConfigValue { key, value } => frame(c, path, value) + "invalid value "@
            + quoted(c, value) + " for config "@ + quoted(c, key),
        CommandError::ColorNotFound(t) => frame(c, path, t) + "no such theme color "@ + quoted(c, t),
        CommandError::InvalidColorValue { key, value } => frame(c, path, value) + "invalid value "@
            + quoted(c, value) + " for theme color "@ + quoted(c, key),
        CommandError::InvalidGlob(t) => frame(c, path, t) + "invalid glob "@ + quoted(c, t),
        CommandError::SyntaxExpectedEquals(t) => frame(c, path, t)
            + "syntax definition expected '=' token here"@,
        CommandError::SyntaxExpectedPattern(t) => frame(c, path, t)
            + "syntax definition expected a pattern here"@,
        CommandError::PatternError(t, message) => frame(c, path, t) + message@,
        CommandError::KeyParseError(t, message) => frame(c, path, t) + message@,
        CommandError::InvalidRegisterKey(t) => frame(c, path, t) + "invalid register key "@ + quoted(
            c,
            t,
        ),
        CommandError::LspServerNotRunning => "lsp server not running"@,
        CommandError::MacroNestingTooDeep => "macros nested too deep"@,
        CommandError::MacroCommandError { index, command, error } => {
            let whole = CommandToken { from: 0, to: encode_utf8(c).len() as usize };
            if index < m.macro_commands@.len() {
                let mc = m.macro_commands@[index as int];
                let inner_path = match mc.source_path {
                    Some(p) => Some(debug_text(p@)),
                    None => None,
                };
                frame(c, path, whole) + "\n@ command macro '"@ + mc.name@ + "':\n"@ + error_text(
                    *error,
                    command@,
                    inner_path,
                    m,
                )
            } else {
                frame(c, path, whole) + "\n"@ + error_text(*error, command@, None, m)
            }
        },
    }
}

/// An error together with what it needs to be shown: the command it was found in, the file
/// that command came from, and the macros it may refer to.
pub struct CommandErrorDisplay<'a> {
    pub command: &'a str,
    pub source_path: Option<&'a str>,
    pub commands: &'a CommandManager,
    pub error: &'a CommandError,
}

/// A source path as the frame shows it: as Rust debug text.
pub open spec fn quoted_view(p: Option<&str>) -> Option<Seq<char>> {
    match p {
        Some(p) => Some(debug_text(p@)),
        None => None,
    }
}

pub open spec fn path_view(p: Option<&str>) -> Option<Seq<char>> {
    match p {
        Some(p) => Some(p@),
        None => None,
    }
}

impl CommandError {
    pub fn display<'a>(
        &'a self,
        command: &'a str,
        source_path: Option<&'a str>,
        commands: &'a CommandManager,
    ) -> (r: CommandErrorDisplay<'a>)
        ensures
            r.command == command,
            r.source_path == source_path,
            r.commands == commands,
            r.error == self,
    {
        CommandErrorDisplay { command, source_path, commands, error: self }
    }
}

impl<'a> CommandErrorDisplay<'a> {
    /// The error as the status bar shows it.
    pub fn fmt(&self) -> (r: String)
        ensures
            r@ == error_text(*self.error, self.command@, quoted_view(self.source_path), *self.commands),
    {
        match self.source_path {
            Some(p) => {
                let quoted = debug_quoted(p);
                render_error(self.error, self.command, Some(quoted.as_str()), self.commands)
            },
            None => render_error(self.error, self.command, None, self.commands),
        }
    }
}

fn push(out: &mut String, s: &str)
    ensures
        final(out)@ == old(out)@ + s@,
{
    out.append(s);
}

fn push_repeat(out: &mut String, c: &str, n: usize)
    requires
        c@.len() == 1,
    ensures
        final(out)@ == old(out)@ + repeat(c@[0], n as nat),
{
    let mut i: usize = 0;
    while i < n
        invariant
            c@.len() == 1,
            i <= n,
            out@ == old(out)@ + repeat(c@[0], i as nat),
        decreases n - i,
    {
        out.append(c);
        proof {
            assert(repeat(c@[0], i as nat) + c@ =~= repeat(c@[0], (i + 1) as nat));
            assert(old(out)@ + repeat(c@[0], i as nat) + c@ =~= old(out)@ + repeat(c@[0], (i + 1) as nat));
        }
        i = i + 1;
    }
}

fn push_digit(out: &mut String, d: u64)
    requires
        d < 10,
    ensures
        final(out)@ == old(out)@ + seq![digit(d as nat)],
{
    let s = if d == 0 {
        proof { reveal_strlit("0"); }
        "0"
    } else if d == 1 {
        proof { reveal_strlit("1"); }
        "1"
    } else if d == 2 {
        proof { reveal_strlit("2"); }
        "2"
    } else if d == 3 {
        proof { reveal_strlit("3"); }
        "3"
    } else if d == 4 {
        proof { reveal_strlit("4"); }
        "4"
    } else if d == 5 {
        proof { reveal_strlit("5"); }
        "5"
    } else if d == 6 {
        proof { reveal_strlit("6"); }
        "6"
    } else if d == 7 {
        proof { reveal_strlit("7"); }
        "7"
    } else if d == 8 {
        proof { reveal_strlit("8"); }
        "8"
    } else {
        proof { reveal_strlit("9"); }
        "9"
    };
    proof {
        assert(s@ =~= seq![digit(d as nat)]);
    }
    out.append(s);
}

fn push_decimal(out: &mut String, n: u64)
    ensures
        final(out)@ == old(out)@ + decimal(n as nat),
    decreases n,
{
    if n >= 10 {
        push_decimal(out, n / 10);
        push_digit(out, n % 10);
        proof {
            assert(decimal(n as nat) == decimal((n / 10) as nat) + seq![digit((n % 10) as nat)]);
            assert(old(out)@ + decimal((n / 10) as nat) + seq![digit((n % 10) as nat)] =~= old(out)@
                + decimal(n as nat));
        }
    } else {
        push_digit(out, n);
    }
}

fn count_char_starts(bytes: &[u8], from: usize, to: usize) -> (r: usize)
    ensures
        r == char_starts(bytes@, from as int, to as int),
{
    let end = if to < bytes.len() {
        to
    } else {
        bytes.len()
    };
    let mut n: usize = 0;
    let mut i = end;
    proof {
        lemma_char_starts_clip(bytes@, from as int, to as int);
    }
    while i > from
        invariant
            end <= bytes@.len(),
            from <= i <= end || (i == end && end < from),
            char_starts(bytes@, from as int, to as int) == char_starts(bytes@, from as int, i as int) + n,
            n <= end - i,
        decreases i,
    {
        proof {
            lemma_char_starts_last(bytes@, from as int, i as int);
        }
        if !(bytes[i - 1] >= 0x80u8 && bytes[i - 1] < 0xC0u8) {
            n = n + 1;
        }
        i = i - 1;
    }
    proof {
        assert(char_starts(bytes@, from as int, i as int) == 0);
    }
    n
}

proof fn lemma_char_starts_clip(b: Seq<u8>, from: int, to: int)
    ensures
        to > b.len() ==> char_starts(b, from, to) == char_starts(b, from, b.len() as int),
    decreases to - from,
{
    if from < to && from < b.len() && from >= 0 {
        lemma_char_starts_clip(b, from + 1, to);
    }
}

proof fn lemma_char_starts_last(b: Seq<u8>, from: int, i: int)
    requires
        0 <= from < i <= b.len(),
    ensures
        char_starts(b, from, i) == char_starts(b, from, i - 1) + (if is_continuation_byte(b[i - 1]) {
            0nat
        } else {
            1nat
        }),
    decreases i - from,
{
    if from < i - 1 {
        lemma_char_starts_last(b, from + 1, i);
    } else {
        assert(char_starts(b, from + 1, i) == 0);
        assert(char_starts(b, from, i - 1) == 0);
    }
}

/// Appends the frame of `t` in `command` to `out`.
fn push_frame(out: &mut String, command: &str, path: Option<&str>, t: CommandToken)
    ensures
        final(out)@ == old(out)@ + frame(command@, path_view(path), t),
{
    let bytes = command.as_bytes();
    let offset = count_char_starts(bytes, 0, t.from);
    let width = count_char_starts(bytes, t.from, t.to);
    let carets = if width == 0 {
        1
    } else {
        width
    };
    let ghost start = out@;
    match path {
        Some(p) => {
            push(out, "@ ");
            push(out, p);
            push(out, "\n");
        },
        None => {},
    }
    push(out, command);
    push(out, "\n");
    proof {
        reveal_strlit(" ");
        reveal_strlit("^");
    }
    push_repeat(out, " ", offset);
    push_repeat(out, "^", carets);
    push(out, "\n");
    proof {
        let head = match path_view(path) {
            Some(p) => "@ "@ + p + "\n"@,
            None => Seq::empty(),
        };
        assert(out@ =~= start + (head + command@ + "\n"@ + repeat(' ', offset as nat) + repeat(
            '^',
            carets as nat,
        ) + "\n"@));
    }
}

fn push_quoted(out: &mut String, command: &str, t: CommandToken)
    ensures
        final(out)@ == old(out)@ + quoted(command@, t),
{
    let ghost start = out@;
    push(out, "'");
    push(out, t.as_str(command));
    push(out, "'");
    proof {
        assert(out@ =~= start + quoted(command@, t));
    }
}

/// The error as shown for `command`, framed with `path` (a source path already written as
/// it is to appear) when there is one.
pub fn render_error(error: &CommandError, command: &str, path: Option<&str>, m: &CommandManager) -> (r: String)
    ensures
        r@ == error_text(*error, command@, path_view(path), *m),
    decreases error,
{
    let mut out = String::new();
    match error {
        CommandError::InvalidCommandName(t) => {
            push_frame(&mut out, command, path, *t);
            push(&mut out, "invalid command name ");
            push_quoted(&mut out, command, *t);
            proof {
                assert(out@ =~= error_text(*error, command@, path_view(path), *m));
            }
        },
        CommandError::CommandNotFound(t) => {
            push_frame(&mut out, command, path, *t);
            push(&mut out, "no such command ");
            push_quoted(&mut out, command, *t);
            proof {
                assert(out@ =~= error_text(*error, command@, path_view(path), *m));
            }
        },
        CommandError::CommandDoesNotAcceptBang => {
            let t = first_token_exec(command);
            push_frame(&mut out, command, path, t);
            push(&mut out, "command does not accept bang");
            proof {
                assert(out@ =~= error_text(*error, command@, path_view(path), *m));
            }
        },
        CommandError::UnterminatedToken(t) => {
            push_frame(&mut out, command, path, *t);
            push(&mut out, "unterminated token");
            proof {
                assert(out@ =~= error_text(*error, command@, path_view(path), *m));
            }
        },
        CommandError::InvalidToken(t) => {
            push_frame(&mut out, command, path, *t);
            push(&mut out, "invalid token ");
            push_quoted(&mut out, command, *t);
            proof {
                assert(out@ =~= error_text(*error, command@, path_view(path), *m));
            }
        },
        CommandError::TooFewArguments(t, n) => {
            push_frame(&mut out, command, path, *t);
            push(&mut out, "command expects at least ");
            push_decimal(&mut out, *n as u64);
            push(&mut out, " arguments");
            proof {
                assert(out@ =~= error_text(*error, command@, path_view(path), *m));
            }
        },
        CommandError::TooManyArguments(t, n) => {
            push_frame(&mut out, command, path, *t);
            push(&mut out, "command expects at most ");
            push_decimal(&mut out, *n as u64);
            push(&mut out, " arguments");
            proof {
                assert(out@ =~= error_text(*error, command@, path_view(path), *m));
            }
        },
        CommandError::UnknownFlag(t) => {
            push_frame(&mut out, command, path, *t);
            push(&mut out, "unknown flag ");
            push_quoted(&mut out, command, *t);
            proof {
                assert(out@ =~= error_text(*error, command@, path_view(path), *m));
            }
        },
        CommandError::UnsavedChanges => {
            push(&mut out, "there are unsaved changes. try appending a '!' to command name to force execute");
            proof {
                assert(out@ =~= error_text(*error, command@, path_view(path), *m));
            }
        },
        CommandError::NoBufferOpened => {
            push(&mut out, "no buffer opened");
            proof {
                assert(out@ =~= error_text(*error, command@, path_view(path), *m));
            }
        },
        CommandError::InvalidBufferHandle(h) => {
            push(&mut out, "invalid buffer handle ");
            push_decimal(&mut out, *h as u64);
            proof {
                assert(out@ =~= error_text(*error, command@, path_view(path), *m));
            }
        },
        CommandError::InvalidPath(t) => {
            push_frame(&mut out, command, path, *t);
            push(&mut out, "invalid path ");
            push_quoted(&mut out, command, *t);
            proof {
                assert(out@ =~= error_text(*error, command@, path_view(path), *m));
            }
        },
        CommandError::ParseArgError { arg, expected } => {
            push_frame(&mut out, command, path, *arg);
            push(&mut out, "could not parse ");
            push_quoted(&mut out, command, *arg);
            push(&mut out, " as ");
            push(&mut out, *expected);
            proof {
                assert(out@ =~= error_text(*error, command@, path_view(path), *m));
            }
        },
        CommandError::OpenFileError { path: p, message } => {
            push_frame(&mut out, command, path, *p);
            push(&mut out, "could not open file ");
            push_quoted(&mut out, command, *p);
            push(&mut out, ": ");
            push(&mut out, message.as_str());
            proof {
                assert(out@ =~= error_text(*error, command@, path_view(path), *m));
            }
        },
        CommandError::BufferError(_, message) => {
            push(&mut out, message.as_str());
            proof {
                assert(out@ =~= error_text(*error, command@, path_view(path), *m));
            }
        },
        CommandError::BufferedKeysParseError(t) => {
            push_frame(&mut out, command, path, *t);
            push(&mut out, "could not parse keys ");
            push_quoted(&mut out, command, *t);
            proof {
                assert(out@ =~= error_text(*error, command@, path_view(path), *m));
            }
        },
        CommandError::ConfigNotFound(t) => {
            push_frame(&mut out, command, path, *t);
            push(&mut out, "no such config ");
            push_quoted(&mut out, command, *t);
            proof {
                assert(out@ =~= error_text(*error, command@, path_view(path), *m));
            }
        },
        CommandError::InvalidConfigValue { key, value } => {
            push_frame(&mut out, command, path, *value);
            push(&mut out, "invalid value ");
            push_quoted(&mut out, command, *value);
            push(&mut out, " for config ");
            push_quoted(&mut out, command, *key);
            proof {
                assert(out@ =~= error_text(*error, command@, path_view(path), *m));
            }
        },
        CommandError::ColorNotFound(t) => {
            push_frame(&mut out, command, path, *t);
            push(&mut out, "no such theme color ");
            push_quoted(&mut out, command, *t);
            proof {
                assert(out@ =~= error_text(*error, command@, path_view(path), *m));
            }
        },
        CommandError::InvalidColorValue { key, value } => {
            push_frame(&mut out, command, path, *value);
            push(&mut out, "invalid value ");
            push_quoted(&mut out, command, *value);
            push(&mut out, " for theme color ");
            push_quoted(&mut out, command, *key);
            proof {
                assert(out@ =~= error_text(*error, command@, path_view(path), *m));
            }
        },
        CommandError::InvalidGlob(t) => {
            push_frame(&mut out, command, path, *t);
            push(&mut out, "invalid glob ");
            push_quoted(&mut out, command, *t);
            proof {
                assert(out@ =~= error_text(*error, command@, path_view(path), *m));
            }
        },
        CommandError::SyntaxExpectedEquals(t) => {
            push_frame(&mut out, command, path, *t);
            push(&mut out, "syntax definition expected '=' token here");
            proof {
                assert(out@ =~= error_text(*error, command@, path_view(path), *m));
            }
        },
        CommandError::SyntaxExpectedPattern(t) => {
            push_frame(&mut out, command, path, *t);
            push(&mut out, "syntax definition expected a pattern here");
            proof {
                assert(out@ =~= error_text(*error, command@, path_view(path), *m));
            }
        },
        CommandError::PatternError(t, message) => {
            push_frame(&mut out, command, path, *t);
            push(&mut out, message.as_str());
            proof {
                assert(out@ =~= error_text(*error, command@, path_view(path), *m));
            }
        },
        CommandError::KeyParseError(t, message) => {
            push_frame(&mut out, command, path, *t);
            push(&mut out, message.as_str());
            proof {
                assert(out@ =~= error_text(*error, command@, path_view(path), *m));
            }
        },
        CommandError::InvalidRegisterKey(t) => {
            push_frame(&mut out, command, path, *t);
            push(&mut out, "invalid register key ");
            push_quoted(&mut out, command, *t);
            proof {
                assert(out@ =~= error_text(*error, command@, path_view(path), *m));
            }
        },
        CommandError::LspServerNotRunning => {
            push(&mut out, "lsp server not running");
            proof {
                assert(out@ =~= error_text(*error, command@, path_view(path), *m));
            }
        },
        CommandError::MacroNestingTooDeep => {
            push(&mut out, "macros nested too deep");
            proof {
                assert(out@ =~= error_text(*error, command@, path_view(path), *m));
            }
        },
        CommandError::MacroCommandError { index, command: inner_command, error: inner } => {
            let whole = CommandToken { from: 0, to: command.len() };
            push_frame(&mut out, command, path, whole);
            if *index < m.macro_commands.len() {
                let mc = &m.macro_commands[*index];
                push(&mut out, "\n@ command macro '");
                push(&mut out, mc.name.as_str());
                push(&mut out, "':\n");
                let text = match &mc.source_path {
                    Some(p) => {
                        let quoted = debug_quoted(p.as_str());
                        render_error(&**inner, inner_command.as_str(), Some(quoted.as_str()), m)
                    },
                    None => render_error(&**inner, inner_command.as_str(), None, m),
                };
                push(&mut out, text.as_str());
                proof {
                    assert(out@ =~= error_text(*error, command@, path_view(path), *m));
                }
            } else {
                push(&mut out, "\n");
                let text = render_error(&**inner, inner_command.as_str(), None, m);
                push(&mut out, text.as_str());
                proof {
                    assert(out@ =~= error_text(*error, command@, path_view(path), *m));
                }
            }
        },
    }
    out
}

fn first_token_exec(command: &str) -> (r: CommandToken)
    ensures
        r == first_token(command@),
{
    let mut tokens = crate::token::CommandTokenIter::new(command);
    match tokens.next() {
        Some((_, t)) => t,
        None => CommandToken { from: 0, to: 0 },
    }
}

} // verus!
