use vstd::prelude::*;
use vstd::string::*;

use crate::buffer_view::BufferViewCollection;
use crate::client::{ClientCollection, ClientHandle, TargetClient};
use crate::register::RegisterKey;
use crate::display::{error_text, quoted_view};
use crate::script::{lemma_yielded_start, script_commands, yielded, CommandIter};
use crate::token::{str_eq, token_at, token_chars, CommandToken, CommandTokenIter, CommandTokenKind};

verus! {

pub const HISTORY_CAPACITY: usize = 10;

/// An argument value: a range of the command text, or a register.
#[derive(Clone, Copy, PartialEq, Eq, Structural, Debug)]
pub enum CommandValue {
    Token(CommandToken),
    Register(RegisterKey),
}

/// Why a command failed. Tokens point into the text of the command that failed.
#[derive(Debug)]
pub enum CommandError {
    InvalidCommandName(CommandToken),
    CommandNotFound(CommandToken),
    CommandDoesNotAcceptBang,
    UnterminatedToken(CommandToken),
    InvalidToken(CommandToken),
    TooFewArguments(CommandToken, u8),
    TooManyArguments(CommandToken, u8),
    UnknownFlag(CommandToken),
    UnsavedChanges,
    NoBufferOpened,
    InvalidBufferHandle(u32),
    InvalidPath(CommandToken),
    ParseArgError { arg: CommandToken, expected: &'static str },
    OpenFileError { path: CommandToken, message: String },
    BufferError(u32, String),
    BufferedKeysParseError(CommandToken),
    ConfigNotFound(CommandToken),
    InvalidConfigValue { key: CommandToken, value: CommandToken },
    ColorNotFound(CommandToken),
    InvalidColorValue { key: CommandToken, value: CommandToken },
    InvalidGlob(CommandToken),
    SyntaxExpectedEquals(CommandToken),
    SyntaxExpectedPattern(CommandToken),
    PatternError(CommandToken, String),
    KeyParseError(CommandToken, String),
    InvalidRegisterKey(CommandToken),
    LspServerNotRunning,
    /// Macros called macros deeper than evaluation allows.
    MacroNestingTooDeep,
    MacroCommandError { index: usize, command: String, error: Box<CommandError> },
}

pub open spec fn tok(t: (CommandTokenKind, int, int, int)) -> CommandToken {
    CommandToken { from: t.1 as usize, to: t.2 as usize }
}

/// The next positional argument at or after `p`, skipping flags and their `=value` parts, and
/// where scanning resumes.
pub open spec fn positional_at(s: Seq<u8>, p: int) -> (Result<Option<CommandToken>, CommandError>, int)
    decreases s.len() - p,
{
    match token_at(s, p) {
        None => (Ok(None), p),
        Some(t) => match t.0 {
            CommandTokenKind::Text => (Ok(Some(tok(t))), t.3),
            CommandTokenKind::Equals => (Err(CommandError::InvalidToken(tok(t))), t.3),
            CommandTokenKind::Unterminated => (Err(CommandError::UnterminatedToken(tok(t))), t.3),
            CommandTokenKind::Flag => {
                let after = match token_at(s, t.3) {
                    Some(u) => if u.0 == CommandTokenKind::Equals {
                        match token_at(s, u.3) {
                            Some(v) => v.3,
                            None => u.3,
                        }
                    } else {
                        t.3
                    },
                    None => t.3,
                };
                if p < after <= s.len() {
                    positional_at(s, after)
                } else {
                    (Ok(None), after)
                }
            },
        },
    }
}

/// Reading all flags from `p` on: the flag values, and whether every flag was well formed and
/// known. A flag written alone gets an empty value at its end; `-name=value` gets `value`.
pub open spec fn flags_at(
    s: Seq<u8>,
    p: int,
    names: Seq<Seq<u8>>,
    values: Seq<Option<CommandValue>>,
) -> (Seq<Option<CommandValue>>, Result<(), CommandError>)
    decreases s.len() - p,
{
    match token_at(s, p) {
        None => (values, Ok(())),
        Some(t) => if !(p < t.3 <= s.len()) {
            (values, Ok(()))
        } else {
            match t.0 {
                CommandTokenKind::Text => flags_at(s, t.3, names, values),
                CommandTokenKind::Equals => (values, Err(CommandError::InvalidToken(tok(t)))),
                CommandTokenKind::Unterminated => (
                    values,
                    Err(CommandError::UnterminatedToken(tok(t))),
                ),
                CommandTokenKind::Flag => match first_index(names, s.subrange(t.1 + 1, t.2)) {
                    None => (values, Err(CommandError::UnknownFlag(tok(t)))),
                    Some(i) => {
                        let empty = Some(
                            CommandValue::Token(CommandToken { from: t.2 as usize, to: t.2 as usize }),
                        );
                        match token_at(s, t.3) {
                            Some(u) => if u.0 == CommandTokenKind::Equals {
                                match token_at(s, u.3) {
                                    Some(v) => match v.0 {
                                        CommandTokenKind::Text => if p < v.3 <= s.len() {
                                            flags_at(
                                                s,
                                                v.3,
                                                names,
                                                values.update(i, Some(CommandValue::Token(tok(v)))),
                                            )
                                        } else {
                                            (values, Ok(()))
                                        },
                                        CommandTokenKind::Unterminated => (
                                            values,
                                            Err(CommandError::UnterminatedToken(tok(v))),
                                        ),
                                        _ => (values, Err(CommandError::InvalidToken(tok(v)))),
                                    },
                                    None => (values, Err(CommandError::InvalidToken(tok(u)))),
                                }
                            } else {
                                flags_at(s, t.3, names, values.update(i, empty))
                            },
                            None => flags_at(s, t.3, names, values.update(i, empty)),
                        }
                    },
                },
            }
        }
    }
}

pub open spec fn flag_names(flags: Seq<(&'static str, Option<CommandValue>)>) -> Seq<Seq<u8>> {
    flags.map_values(|f: (&'static str, Option<CommandValue>)| f.0.spec_bytes())
}

pub open spec fn flag_values(flags: Seq<(&'static str, Option<CommandValue>)>) -> Seq<
    Option<CommandValue>,
> {
    flags.map_values(|f: (&'static str, Option<CommandValue>)| f.1)
}

/// The arguments of one command, read lazily after its name.
pub struct CommandArgs<'a> {
    pub bang: bool,
    pub tokens: CommandTokenIter<'a>,
    pub len: u8,
}

impl<'a> CommandArgs<'a> {
    pub open spec fn text(&self) -> Seq<u8> {
        self.tokens.text.spec_bytes()
    }

    pub open spec fn pos(&self) -> int {
        self.tokens.pos as int
    }

    pub open spec fn wf(&self) -> bool {
        self.tokens.pos <= self.tokens.text.spec_bytes().len()
    }

    pub fn assert_no_bang(&self) -> (r: Result<(), CommandError>)
        ensures
            self.bang ==> r matches Err(CommandError::CommandDoesNotAcceptBang),
            !self.bang ==> r is Ok,
    {
        if self.bang {
            Err(CommandError::CommandDoesNotAcceptBang)
        } else {
            Ok(())
        }
    }

    /// Fills `flags` (name, value) from every flag among the remaining arguments, without
    /// consuming any of them.
    pub fn get_flags(&self, flags: &mut Vec<(&'static str, Option<CommandValue>)>) -> (r: Result<
        (),
        CommandError,
    >)
        requires
            self.wf(),
        ensures
            flag_names(final(flags)@) == flag_names(old(flags)@),
            final(flags)@.len() == old(flags)@.len(),
            flag_values(final(flags)@) == flags_at(
                self.text(),
                self.pos(),
                flag_names(old(flags)@),
                flag_values(old(flags)@),
            ).0,
            r == flags_at(self.text(), self.pos(), flag_names(old(flags)@), flag_values(old(flags)@)).1,
    {
        let bytes = self.tokens.text.as_bytes();
        let ghost s = bytes@;
        let ghost names = flag_names(flags@);
        let mut tokens = CommandTokenIter { text: self.tokens.text, pos: self.tokens.pos };
        loop
            invariant
                tokens.text == self.tokens.text,
                bytes@ == s,
                s == self.text(),
                tokens.pos <= s.len(),
                flag_names(flags@) == names,
                names == flag_names(old(flags)@),
                flags@.len() == old(flags)@.len(),
                flags_at(s, self.pos(), names, flag_values(old(flags)@)) == flags_at(
                    s,
                    tokens.pos as int,
                    names,
                    flag_values(flags@),
                ),
            decreases s.len() - tokens.pos,
        {
            let ghost p = tokens.pos as int;
            proof {
                crate::token::lemma_token_offsets(s, p);
            }
            let (kind, token) = match tokens.next() {
                Some(t) => t,
                None => {
                    return Ok(());
                },
            };
            match kind {
                CommandTokenKind::Text => {},
                CommandTokenKind::Equals => {
                    return Err(CommandError::InvalidToken(token));
                },
                CommandTokenKind::Unterminated => {
                    return Err(CommandError::UnterminatedToken(token));
                },
                CommandTokenKind::Flag => {
                    let index = find_flag(flags, bytes, token.from + 1, token.to);
                    let i = match index {
                        Some(i) => i,
                        None => {
                            return Err(CommandError::UnknownFlag(token));
                        },
                    };
                    let flag_end = tokens.pos;
                    proof {
                        crate::token::lemma_token_offsets(s, flag_end as int);
                    }
                    let empty = Some(CommandValue::Token(CommandToken { from: token.to, to: token.to }));
                    match tokens.next() {
                        Some((CommandTokenKind::Equals, equals)) => {
                            let equals_end = tokens.pos;
                            proof {
                                crate::token::lemma_token_offsets(s, equals_end as int);
                            }
                            match tokens.next() {
                                Some((CommandTokenKind::Text, value)) => {
                                    set_flag(flags, i, Some(CommandValue::Token(value)));
                                },
                                Some((CommandTokenKind::Unterminated, value)) => {
                                    return Err(CommandError::UnterminatedToken(value));
                                },
                                Some((_, value)) => {
                                    return Err(CommandError::InvalidToken(value));
                                },
                                None => {
                                    return Err(CommandError::InvalidToken(equals));
                                },
                            }
                        },
                        _ => {
                            tokens.pos = flag_end;
                            set_flag(flags, i, empty);
                        },
                    }
                },
            }
        }
    }

    /// Reads the next positional argument, past flags and their values, without counting it.
    fn next_positional(&mut self) -> (r: Result<Option<CommandToken>, CommandError>)
        requires
            old(self).wf(),
        ensures
            final(self).wf(),
            final(self).tokens.text == old(self).tokens.text,
            final(self).bang == old(self).bang,
            final(self).len == old(self).len,
            r == positional_at(old(self).text(), old(self).pos()).0,
            final(self).pos() == positional_at(old(self).text(), old(self).pos()).1,
    {
        let ghost s = self.text();
        loop
            invariant
                self.wf(),
                self.text() == s,
                self.tokens.text == old(self).tokens.text,
                self.bang == old(self).bang,
                self.len == old(self).len,
                positional_at(s, old(self).pos()) == positional_at(s, self.pos()),
            decreases s.len() - self.pos(),
        {
            let ghost p = self.pos();
            proof {
                crate::token::lemma_token_offsets(s, p);
            }
            match self.tokens.next() {
                None => {
                    return Ok(None);
                },
                Some((CommandTokenKind::Text, token)) => {
                    return Ok(Some(token));
                },
                Some((CommandTokenKind::Equals, token)) => {
                    return Err(CommandError::InvalidToken(token));
                },
                Some((CommandTokenKind::Unterminated, token)) => {
                    return Err(CommandError::UnterminatedToken(token));
                },
                Some((CommandTokenKind::Flag, _)) => {
                    let flag_end = self.tokens.pos;
                    proof {
                        crate::token::lemma_token_offsets(s, flag_end as int);
                    }
                    match self.tokens.next() {
                        Some((CommandTokenKind::Equals, _)) => {
                            let ghost equals_end = self.pos();
                            proof {
                                crate::token::lemma_token_offsets(s, equals_end);
                            }
                            self.tokens.next();
                        },
                        _ => {
                            self.tokens.pos = flag_end;
                        },
                    }
                },
            }
        }
    }

    /// The next positional argument, or `None` when none is left.
    pub fn try_next(&mut self) -> (r: Result<Option<CommandValue>, CommandError>)
        requires
            old(self).wf(),
        ensures
            final(self).wf(),
            final(self).tokens.text == old(self).tokens.text,
            final(self).bang == old(self).bang,
            final(self).len == if old(self).len < 255 { (old(self).len + 1) as u8 } else { 255 },
            final(self).pos() == positional_at(old(self).text(), old(self).pos()).1,
            match positional_at(old(self).text(), old(self).pos()).0 {
                Ok(Some(t)) => r == Ok::<Option<CommandValue>, CommandError>(Some(CommandValue::Token(t))),
                Ok(None) => r matches Ok(None),
                Err(e) => r == Err::<Option<CommandValue>, CommandError>(e),
            },
    {
        if self.len < 255 {
            self.len = self.len + 1;
        }
        match self.next_positional() {
            Ok(Some(token)) => Ok(Some(CommandValue::Token(token))),
            Ok(None) => Ok(None),
            Err(e) => Err(e),
        }
    }

    /// The next positional argument; fails with the count of arguments asked for so far when
    /// none is left.
    pub fn next(&mut self) -> (r: Result<CommandValue, CommandError>)
        requires
            old(self).wf(),
        ensures
            final(self).wf(),
            final(self).tokens.text == old(self).tokens.text,
            final(self).bang == old(self).bang,
            final(self).len == if old(self).len < 255 { (old(self).len + 1) as u8 } else { 255 },
            final(self).pos() == positional_at(old(self).text(), old(self).pos()).1,
            match positional_at(old(self).text(), old(self).pos()).0 {
                Ok(Some(t)) => r == Ok::<CommandValue, CommandError>(CommandValue::Token(t)),
                Ok(None) => r == Err::<CommandValue, CommandError>(
                    CommandError::TooFewArguments(CommandToken { from: 0, to: 0 }, final(self).len),
                ),
                Err(e) => r == Err::<CommandValue, CommandError>(e),
            },
    {
        match self.try_next() {
            Ok(Some(value)) => Ok(value),
            Ok(None) => Err(CommandError::TooFewArguments(CommandToken { from: 0, to: 0 }, self.len)),
            Err(e) => Err(e),
        }
    }

    /// Fails when a positional argument remains.
    pub fn assert_empty(&mut self) -> (r: Result<(), CommandError>)
        requires
            old(self).wf(),
        ensures
            final(self).wf(),
            final(self).tokens.text == old(self).tokens.text,
            match positional_at(old(self).text(), old(self).pos()).0 {
                Ok(Some(t)) => r == Err::<(), CommandError>(
                    CommandError::TooManyArguments(t, old(self).len),
                ),
                Ok(None) => r is Ok,
                Err(e) => r == Err::<(), CommandError>(e),
            },
    {
        match self.next_positional() {
            Ok(Some(token)) => Err(CommandError::TooManyArguments(token, self.len)),
            Ok(None) => Ok(()),
            Err(e) => Err(e),
        }
    }
}

fn set_flag(
    flags: &mut Vec<(&'static str, Option<CommandValue>)>,
    i: usize,
    value: Option<CommandValue>,
)
    requires
        i < old(flags)@.len(),
    ensures
        final(flags)@.len() == old(flags)@.len(),
        flag_names(final(flags)@) == flag_names(old(flags)@),
        flag_values(final(flags)@) == flag_values(old(flags)@).update(i as int, value),
{
    let name = flags[i].0;
    flags.set(i, (name, value));
    proof {
        assert(flag_names(flags@) =~= flag_names(old(flags)@));
        assert(flag_values(flags@) =~= flag_values(old(flags)@).update(i as int, value));
    }
}

/// Index of the first flag whose name is `bytes[from..to]`.
fn find_flag(
    flags: &Vec<(&'static str, Option<CommandValue>)>,
    bytes: &[u8],
    from: usize,
    to: usize,
) -> (r: Option<usize>)
    requires
        from <= to <= bytes@.len(),
    ensures
        r matches Some(i) ==> i < flags@.len(),
        match r {
            Some(i) => first_index(flag_names(flags@), bytes@.subrange(from as int, to as int)) == Some(i as int),
            None => first_index(flag_names(flags@), bytes@.subrange(from as int, to as int)) is None,
        },
{
    let ghost key = bytes@.subrange(from as int, to as int);
    let mut i: usize = 0;
    while i < flags.len()
        invariant
            from <= to <= bytes@.len(),
            key == bytes@.subrange(from as int, to as int),
            i <= flags@.len(),
            forall|k: int| 0 <= k < i ==> flag_names(flags@)[k] != key,
        decreases flags@.len() - i,
    {
        proof {
            assert(flag_names(flags@)[i as int] == flags@[i as int].0.spec_bytes());
        }
        if bytes_match(flags[i].0, bytes, from, to) {
            proof {
                lemma_first_index_found(flag_names(flags@), key, i as int);
            }
            return Some(i);
        }
        i = i + 1;
    }
    proof {
        lemma_first_index_missing(flag_names(flags@), key);
    }
    None
}

/// Whether `name` is spelled by `bytes[from..to]`.
fn bytes_match(name: &str, bytes: &[u8], from: usize, to: usize) -> (r: bool)
    requires
        from <= to <= bytes@.len(),
    ensures
        r == (name.spec_bytes() == bytes@.subrange(from as int, to as int)),
{
    let n = name.as_bytes();
    if n.len() != to - from {
        return false;
    }
    let mut i: usize = 0;
    while i < n.len()
        invariant
            n@ == name.spec_bytes(),
            n@.len() == to - from,
            from <= to <= bytes@.len(),
            i <= n@.len(),
            forall|k: int| 0 <= k < i ==> n@[k] == bytes@[from + k],
        decreases n@.len() - i,
    {
        if n[i] != bytes[from + i] {
            return false;
        }
        i = i + 1;
    }
    proof {
        assert(n@ =~= bytes@.subrange(from as int, to as int));
    }
    true
}

#[derive(Clone, Copy, PartialEq, Eq, Structural, Debug)]
pub enum CommandOperation {
    Quit,
    QuitAll,
}

#[derive(Debug, Clone, Copy, PartialEq, Eq)]
pub enum CompletionSource {
    Commands,
    Buffers,
    Files,
    Custom(&'static [&'static str]),
}

/// Where a command name resolves to: an index into one of the three tables.
#[derive(Clone, Copy, PartialEq, Eq, Structural, Debug)]
pub enum CommandSource {
    Builtin(usize),
    Macro(usize),
    Request(usize),
}

pub struct BuiltinCommand {
    pub name: &'static str,
    pub alias: &'static str,
    pub help: &'static str,
    pub hidden: bool,
    pub accepts_bang: bool,
    pub completions: &'static [CompletionSource],
}

pub struct MacroCommand {
    pub name: String,
    pub help: String,
    pub hidden: bool,
    pub params: Vec<String>,
    pub commands: String,
    pub source_path: Option<String>,
}

pub struct RequestCommand {
    pub name: String,
    pub help: String,
    pub hidden: bool,
    pub client_handle: ClientHandle,
}

/// Runs what the command language resolves to: builtin handlers, and requests forwarded to a
/// client. Implemented by the editor around this library.
pub trait CommandHandler {
    fn call_builtin<'a>(&mut self, index: usize, args: CommandArgs<'a>) -> Result<
        Option<CommandOperation>,
        CommandError,
    >;

    fn send_request(&mut self, client_handle: ClientHandle, command: &str);
}

/// Index of the first element equal to `x`.
pub open spec fn first_index<T>(xs: Seq<T>, x: T) -> Option<int>
    decreases xs.len(),
{
    if xs.len() == 0 {
        None
    } else {
        match first_index(xs.drop_last(), x) {
            Some(i) => Some(i),
            None => if xs.last() == x {
                Some(xs.len() - 1)
            } else {
                None
            },
        }
    }
}

/// Index of the first builtin whose name or alias is `name`.
pub open spec fn first_builtin(names: Seq<(Seq<char>, Seq<char>)>, name: Seq<char>) -> Option<int>
    decreases names.len(),
{
    if names.len() == 0 {
        None
    } else {
        match first_builtin(names.drop_last(), name) {
            Some(i) => Some(i),
            None => if names.last().0 == name || names.last().1 == name {
                Some(names.len() - 1)
            } else {
                None
            },
        }
    }
}

proof fn lemma_first_index_found<T>(xs: Seq<T>, x: T, i: int)
    requires
        0 <= i < xs.len(),
        xs[i] == x,
        forall|k: int| 0 <= k < i ==> xs[k] != x,
    ensures
        first_index(xs, x) == Some(i),
    decreases xs.len(),
{
    if xs.len() - 1 > i {
        lemma_first_index_found(xs.drop_last(), x, i);
    } else {
        lemma_first_index_missing(xs.drop_last(), x);
    }
}

proof fn lemma_first_index_missing<T>(xs: Seq<T>, x: T)
    requires
        forall|k: int| 0 <= k < xs.len() ==> xs[k] != x,
    ensures
        first_index(xs, x) is None,
    decreases xs.len(),
{
    if xs.len() > 0 {
        lemma_first_index_missing(xs.drop_last(), x);
    }
}

proof fn lemma_first_index_bounds<T>(xs: Seq<T>, x: T)
    ensures
        first_index(xs, x) matches Some(i) ==> 0 <= i < xs.len() && xs[i] == x,
        first_index(xs, x) is None ==> forall|k: int| 0 <= k < xs.len() ==> xs[k] != x,
    decreases xs.len(),
{
    if xs.len() > 0 {
        lemma_first_index_bounds(xs.drop_last(), x);
        if first_index(xs.drop_last(), x) is None {
            assert forall|k: int| 0 <= k < xs.len() - 1 implies xs[k] != x by {
                assert(xs.drop_last()[k] == xs[k]);
            }
        }
    }
}

proof fn lemma_first_builtin_found(names: Seq<(Seq<char>, Seq<char>)>, name: Seq<char>, i: int)
    requires
        0 <= i < names.len(),
        names[i].0 == name || names[i].1 == name,
        forall|k: int| 0 <= k < i ==> names[k].0 != name && names[k].1 != name,
    ensures
        first_builtin(names, name) == Some(i),
    decreases names.len(),
{
    if names.len() - 1 > i {
        lemma_first_builtin_found(names.drop_last(), name, i);
    } else {
        lemma_first_builtin_missing(names.drop_last(), name);
    }
}

proof fn lemma_first_builtin_missing(names: Seq<(Seq<char>, Seq<char>)>, name: Seq<char>)
    requires
        forall|k: int| 0 <= k < names.len() ==> names[k].0 != name && names[k].1 != name,
    ensures
        first_builtin(names, name) is None,
    decreases names.len(),
{
    if names.len() > 0 {
        lemma_first_builtin_missing(names.drop_last(), name);
    }
}

/// Whether a history entry may be recorded: not empty, and not starting with ASCII whitespace.
pub open spec fn history_accepts(entry: Seq<char>) -> bool {
    entry.len() > 0 && !(entry[0] == ' ' || entry[0] == '\t' || entry[0] == '\n' || entry[0]
        == '\x0C' || entry[0] == '\r')
}

/// The history after offering `entry`: kept unchanged for an entry it does not accept or one
/// equal to the newest; otherwise appended, dropping the oldest when full.
pub open spec fn history_after(h: Seq<Seq<char>>, entry: Seq<char>) -> Seq<Seq<char>> {
    if !history_accepts(entry) || (h.len() > 0 && h.last() == entry) {
        h
    } else if h.len() >= HISTORY_CAPACITY {
        h.drop_first().push(entry)
    } else {
        h.push(entry)
    }
}

/// A history holds at most its capacity of entries, each accepted, no two adjacent equal.
pub open spec fn history_wf(h: Seq<Seq<char>>) -> bool {
    &&& h.len() <= HISTORY_CAPACITY
    &&& forall|i: int| 0 <= i < h.len() ==> history_accepts(#[trigger] h[i])
    &&& forall|i: int| 0 < i < h.len() ==> #[trigger] h[i] != h[i - 1]
}

/// Offering any entry to a well-formed history keeps it well formed: never two adjacent equal
/// entries, never an empty or whitespace-led entry, never more than the capacity.
pub proof fn lemma_history_stays_wf(h: Seq<Seq<char>>, entry: Seq<char>)
    requires
        history_wf(h),
    ensures
        history_wf(history_after(h, entry)),
{
    let r = history_after(h, entry);
    if !history_accepts(entry) || (h.len() > 0 && h.last() == entry) {
    } else if h.len() >= HISTORY_CAPACITY {
        let d = h.drop_first();
        assert forall|i: int| 0 < i < r.len() implies #[trigger] r[i] != r[i - 1] by {
            if i < r.len() - 1 {
                assert(r[i] == h[i + 1] && r[i - 1] == h[i]);
            } else {
                assert(r[i - 1] == h.last());
            }
        }
        assert forall|i: int| 0 <= i < r.len() implies history_accepts(#[trigger] r[i]) by {
            if i < r.len() - 1 {
                assert(r[i] == h[i + 1]);
            }
        }
    } else {
        assert forall|i: int| 0 < i < r.len() implies #[trigger] r[i] != r[i - 1] by {
            if i < r.len() - 1 {
                assert(r[i] == h[i] && r[i - 1] == h[i - 1]);
            }
        }
        assert forall|i: int| 0 <= i < r.len() implies history_accepts(#[trigger] r[i]) by {
            if i < r.len() - 1 {
                assert(r[i] == h[i]);
            }
        }
    }
}

pub proof fn lemma_find_spec_bounds(m: &CommandManager, name: Seq<char>)
    ensures
        m.find_spec(name) matches Some(CommandSource::Macro(i)) ==> i < m.macro_commands@.len(),
        m.find_spec(name) matches Some(CommandSource::Request(i)) ==> i < m.request_commands@.len(),
        m.find_spec(name) matches Some(CommandSource::Builtin(i)) ==> i < m.builtin_commands@.len(),
{
    lemma_first_index_bounds(m.macro_names(), name);
    lemma_first_index_bounds(m.request_names(), name);
    lemma_first_builtin_bounds(m.builtin_names(), name);
}

proof fn lemma_first_builtin_bounds(names: Seq<(Seq<char>, Seq<char>)>, name: Seq<char>)
    ensures
        first_builtin(names, name) matches Some(i) ==> 0 <= i < names.len(),
    decreases names.len(),
{
    if names.len() > 0 {
        lemma_first_builtin_bounds(names.drop_last(), name);
    }
}

/// Index of the first process slot no longer alive.
pub open spec fn first_dead(ps: Seq<Process>) -> Option<int>
    decreases ps.len(),
{
    if ps.len() == 0 {
        None
    } else {
        match first_dead(ps.drop_last()) {
            Some(i) => Some(i),
            None => if !ps.last().alive {
                Some(ps.len() - 1)
            } else {
                None
            },
        }
    }
}

proof fn lemma_first_dead(ps: Seq<Process>, i: int)
    requires
        0 <= i <= ps.len(),
        forall|k: int| 0 <= k < i ==> (#[trigger] ps[k]).alive,
        i < ps.len() ==> !ps[i].alive,
    ensures
        i < ps.len() ==> first_dead(ps) == Some(i),
        i == ps.len() ==> first_dead(ps) is None,
    decreases ps.len(),
{
    if ps.len() > 0 {
        if i < ps.len() - 1 {
            lemma_first_dead(ps.drop_last(), i);
        } else if i == ps.len() - 1 {
            lemma_first_dead(ps.drop_last(), i);
        } else {
            lemma_first_dead(ps.drop_last(), i - 1);
        }
    }
}

fn empty_process() -> (r: Process)
    ensures
        !r.alive,
{
    Process {
        alive: false,
        client_handle: None,
        input: None,
        output: Vec::new(),
        split_on_byte: None,
        output_var_name: String::new(),
        on_output: String::new(),
    }
}

/// What a process's output asks for: its command text to evaluate, or an error for output
/// that is not UTF-8.
pub enum ProcessOutput {
    Commands(String),
    InvalidUtf8,
}

/// `template` with every occurrence of `name` replaced by `value`, read left to right from `i`;
/// an empty name replaces nothing.
pub open spec fn substitute_from(template: Seq<char>, name: Seq<char>, value: Seq<char>, i: int) -> Seq<char>
    decreases template.len() - i,
{
    if i < 0 || i >= template.len() {
        Seq::empty()
    } else if name.len() > 0 && i + name.len() <= template.len() && template.subrange(i, i + name.len()) == name {
        value + substitute_from(template, name, value, i + name.len())
    } else {
        seq![template[i]] + substitute_from(template, name, value, i + 1)
    }
}

pub open spec fn substitute(template: Seq<char>, name: Seq<char>, value: Seq<char>) -> Seq<char> {
    substitute_from(template, name, value, 0)
}

/// What a piece of output asks for: the command text with the piece put in place of the
/// output variable's name, or an error when the piece is not UTF-8.
pub open spec fn is_output_of(o: ProcessOutput, piece: Seq<u8>, template: Seq<char>, name: Seq<char>) -> bool {
    if vstd::utf8::valid_utf8(piece) {
        o matches ProcessOutput::Commands(t) && t@ == substitute(template, name, vstd::utf8::decode_utf8(piece))
    } else {
        o is InvalidUtf8
    }
}

/// The pieces of `acc` before each `b`, from `i` on, leaving out empty ones.
pub open spec fn pieces(acc: Seq<u8>, b: u8, i: int) -> Seq<Seq<u8>>
    decreases acc.len() - i,
{
    match crate::token::byte_index(acc, i, b) {
        Some(k) => if i <= k < acc.len() {
            (if k > i { seq![acc.subrange(i, k)] } else { Seq::empty() }) + pieces(acc, b, k + 1)
        } else {
            Seq::empty()
        },
        None => Seq::empty(),
    }
}

/// Where the bytes after the last `b` (from `i` on) start.
pub open spec fn buffered_from(acc: Seq<u8>, b: u8, i: int) -> int
    decreases acc.len() - i,
{
    match crate::token::byte_index(acc, i, b) {
        Some(k) => if i <= k < acc.len() {
            buffered_from(acc, b, k + 1)
        } else {
            i
        },
        None => i,
    }
}

/// Relies on `std::str::from_utf8`: the text of `bytes` exactly when they are valid UTF-8.
#[verifier::external_body]
fn utf8_str(bytes: &[u8]) -> (r: Option<&str>)
    ensures
        r is Some == vstd::utf8::valid_utf8(bytes@),
        r matches Some(s) ==> s.spec_bytes() == bytes@,
{
    std::str::from_utf8(bytes).ok()
}

/// `template` with every occurrence of `name` replaced by `value`.
pub fn substitute_exec(template: &str, name: &str, value: &str) -> (r: String)
    ensures
        r@ == substitute(template@, name@, value@),
{
    let t = chars_of(template);
    let n = chars_of(name);
    let mut out = String::new();
    let mut i: usize = 0;
    while i < t.len()
        invariant
            t@ == template@,
            n@ == name@,
            i <= t@.len(),
            out@ + substitute_from(t@, n@, value@, i as int) == substitute(t@, n@, value@),
        decreases t@.len() - i,
    {
        let ghost before = out@;
        if n.len() > 0 && n.len() <= t.len() - i && chars_match(&t, i, &n) {
            out.append(value);
            proof {
                assert(before + substitute_from(t@, n@, value@, i as int) =~= out@ + substitute_from(t@, n@, value@, i + n@.len()));
            }
            i = i + n.len();
        } else {
            let c = crate::keys::char_string(t[i]);
            out.append(c.as_str());
            proof {
                assert(before + substitute_from(t@, n@, value@, i as int) =~= out@ + substitute_from(t@, n@, value@, i + 1));
            }
            i = i + 1;
        }
    }
    proof {
        assert(out@ + Seq::<char>::empty() =~= out@);
    }
    out
}

fn chars_of(s: &str) -> (r: Vec<char>)
    ensures
        r@ == s@,
{
    let n = s.unicode_len();
    let mut out: Vec<char> = Vec::new();
    while out.len() < n
        invariant
            n == s@.len(),
            out@.len() <= n,
            out@ == s@.subrange(0, out@.len() as int),
        decreases n - out@.len(),
    {
        out.push(s.get_char(out.len()));
        proof {
            assert(out@ =~= s@.subrange(0, out@.len() as int));
        }
    }
    proof {
        assert(out@ =~= s@);
    }
    out
}

/// Whether `name` stands in `t` at `i`.
fn chars_match(t: &Vec<char>, i: usize, name: &Vec<char>) -> (r: bool)
    requires
        i + name@.len() <= t@.len(),
    ensures
        r == (t@.subrange(i as int, i + name@.len()) == name@),
{
    let tl = t.len();
    let mut k: usize = 0;
    while k < name.len()
        invariant
            tl == t@.len(),
            i + name@.len() <= t@.len(),
            k <= name@.len(),
            forall|j: int| 0 <= j < k ==> t@[i + j] == name@[j],
        decreases name@.len() - k,
    {
        if t[i + k] != name[k] {
            proof {
                assert(t@.subrange(i as int, i + name@.len())[k as int] != name@[k as int]);
            }
            return false;
        }
        k = k + 1;
    }
    proof {
        assert(t@.subrange(i as int, i + name@.len()) =~= name@);
    }
    true
}

/// Whether `e` reports a failure of one of the commands `body` of macro `i`.
pub open spec fn wraps_body_command(e: CommandError, i: usize, body: Seq<Seq<char>>) -> bool {
    match e {
        CommandError::MacroCommandError { index, command, .. } => index == i && exists|k: int|
            0 <= k < body.len() && body[k] == command@,
        _ => false,
    }
}

/// Whether `e` reports that command `command` of macro `i` failed with `inner`.
pub open spec fn wraps(e: CommandError, i: usize, command: Seq<char>, inner: CommandError) -> bool {
    match e {
        CommandError::MacroCommandError { index, command: c, error } => index == i && c@ == command
            && *error == inner,
        _ => false,
    }
}

/// What a command resolves to, as values.
pub enum DispatchKind {
    Builtin(usize, bool, usize),
    Request(ClientHandle),
    Macro(usize),
}

/// What runs a command: builtin `index` with its arguments, a request to a client, or macro
/// `index` with the arguments bound to its parameters, in order.
pub enum Dispatch<'a> {
    Builtin(usize, CommandArgs<'a>),
    Request(ClientHandle),
    Macro(usize, Vec<CommandToken>),
}

pub open spec fn sat_inc(len: u8) -> u8 {
    if len < 255 { (len + 1) as u8 } else { 255 }
}

/// Reading `n` positional arguments from `p`, with `len` asked for before: the arguments,
/// where reading stopped, and how many were asked for; or the first error.
pub open spec fn take_args(s: Seq<u8>, p: int, n: nat, len: u8) -> Result<(Seq<CommandToken>, int, u8), CommandError>
    decreases n,
{
    if n == 0 {
        Ok((Seq::empty(), p, len))
    } else {
        match positional_at(s, p).0 {
            Err(e) => Err(e),
            Ok(None) => Err(CommandError::TooFewArguments(CommandToken { from: 0, to: 0 }, sat_inc(len))),
            Ok(Some(t)) => match take_args(s, positional_at(s, p).1, (n - 1) as nat, sat_inc(len)) {
                Ok((ts, q, l)) => Ok((seq![t] + ts, q, l)),
                Err(e) => Err(e),
            },
        }
    }
}

pub open spec fn prepend_args(
    vs: Seq<CommandToken>,
    r: Result<(Seq<CommandToken>, int, u8), CommandError>,
) -> Result<(Seq<CommandToken>, int, u8), CommandError> {
    match r {
        Ok((ts, q, l)) => Ok((vs + ts, q, l)),
        Err(e) => Err(e),
    }
}

/// The macro arguments of the command whose characters are `c`, when it calls a macro.
pub open spec fn macro_args(m: &CommandManager, c: Seq<char>) -> Seq<CommandToken> {
    let s = vstd::utf8::encode_utf8(c);
    match parse_chars(m, c) {
        Ok((CommandSource::Macro(i), _, next)) => match take_args(s, next, m.macro_commands@[i as int].params@.len(), 0) {
            Ok((vals, _, _)) => vals,
            Err(_) => Seq::empty(),
        },
        _ => Seq::empty(),
    }
}

/// `template` after substituting, for each of the first `k` parameter names in turn, its value.
pub open spec fn substitute_all(template: Seq<char>, names: Seq<Seq<char>>, values: Seq<Seq<char>>, k: int) -> Seq<char>
    decreases k,
{
    if k <= 0 {
        template
    } else {
        substitute(substitute_all(template, names, values, k - 1), names[k - 1], values[k - 1])
    }
}

/// The body that macro `i` runs when called by the command `c`: its commands with each
/// parameter's name replaced by the argument bound to it.
pub open spec fn macro_body(m: &CommandManager, i: usize, c: Seq<char>) -> Seq<char> {
    let mc = m.macro_commands@[i as int];
    let names = mc.params@.map_values(|p: String| p@);
    let values = macro_args(m, c).map_values(|t: CommandToken| crate::display::token_text(c, t));
    substitute_all(mc.commands@, names, values, names.len() as int)
}

/// How the command whose characters are `c` is run: a builtin with its bang and where its
/// arguments start, the client of a request, or a macro whose call has no flags and one
/// argument for each of its parameters.
pub open spec fn dispatch_chars(m: &CommandManager, c: Seq<char>) -> Result<DispatchKind, CommandError> {
    let s = vstd::utf8::encode_utf8(c);
    match parse_chars(m, c) {
        Err(e) => Err(e),
        Ok((CommandSource::Builtin(i), bang, next)) => Ok(DispatchKind::Builtin(i, bang, next as usize)),
        Ok((CommandSource::Request(i), _, _)) => Ok(DispatchKind::Request(m.request_commands@[i as int].client_handle)),
        Ok((CommandSource::Macro(i), _, next)) => {
            let flags = flags_at(s, next, Seq::empty(), Seq::empty()).1;
            if flags is Err {
                Err(flags->Err_0)
            } else {
                match take_args(s, next, m.macro_commands@[i as int].params@.len(), 0) {
                    Err(e) => Err(e),
                    Ok((_, q, len)) => {
                        let rest = positional_at(s, q).0;
                        if rest is Err {
                            Err(rest->Err_0)
                        } else if rest->Ok_0 is Some {
                            Err(CommandError::TooManyArguments(rest->Ok_0->0, len))
                        } else {
                            Ok(DispatchKind::Macro(i))
                        }
                    },
                }
            }
        },
    }
}

/// The outcome of parsing a command's head: its source, whether it has a bang, and where its
/// arguments start.
pub open spec fn parse_spec(
    m: &CommandManager,
    text: &str,
) -> Result<(CommandSource, bool, int), CommandError> {
    parse_chars(m, text@)
}

/// Parsing the head of the command whose characters are `c`.
pub open spec fn parse_chars(
    m: &CommandManager,
    c: Seq<char>,
) -> Result<(CommandSource, bool, int), CommandError> {
    let s = vstd::utf8::encode_utf8(c);
    match token_at(s, 0) {
        None => Err(CommandError::InvalidCommandName(CommandToken { from: 0, to: 0 })),
        Some(t) => if t.0 != CommandTokenKind::Text {
            Err(CommandError::InvalidCommandName(tok(t)))
        } else {
            let bang = t.2 > t.1 && s[t.2 - 1] == 0x21u8;
            let name_end = if bang {
                t.2 - 1
            } else {
                t.2
            };
            let name = CommandToken { from: t.1 as usize, to: name_end as usize };
            if name_end == t.1 {
                Err(CommandError::InvalidCommandName(name))
            } else {
                match m.find_spec(crate::display::token_text(c, name)) {
                    None => Err(CommandError::CommandNotFound(tok(t))),
                    Some(source) => if bang && (!(source matches CommandSource::Builtin(i))
                        || !m.builtin_commands@[source->Builtin_0 as int].accepts_bang) {
                        Err(CommandError::CommandDoesNotAcceptBang)
                    } else {
                        Ok((source, bang, t.3))
                    },
                }
            }
        },
    }
}

pub struct Process {
    pub alive: bool,
    pub client_handle: Option<ClientHandle>,
    pub input: Option<Vec<u8>>,
    pub output: Vec<u8>,
    pub split_on_byte: Option<u8>,
    pub output_var_name: String,
    pub on_output: String,
}

pub struct CommandManager {
    pub builtin_commands: Vec<BuiltinCommand>,
    pub macro_commands: Vec<MacroCommand>,
    pub request_commands: Vec<RequestCommand>,
    pub history: Vec<String>,
    pub spawned_processes: Vec<Process>,
    pub output: String,
}

impl CommandManager {
    pub open spec fn macro_names(&self) -> Seq<Seq<char>> {
        self.macro_commands@.map_values(|m: MacroCommand| m.name@)
    }

    pub open spec fn request_names(&self) -> Seq<Seq<char>> {
        self.request_commands@.map_values(|m: RequestCommand| m.name@)
    }

    pub open spec fn builtin_names(&self) -> Seq<(Seq<char>, Seq<char>)> {
        self.builtin_commands@.map_values(|b: BuiltinCommand| (b.name@, b.alias@))
    }

    pub open spec fn history_view(&self) -> Seq<Seq<char>> {
        self.history@.map_values(|e: String| e@)
    }

    /// What a name resolves to: a macro first, then a request, then a builtin by name or alias.
    pub open spec fn find_spec(&self, name: Seq<char>) -> Option<CommandSource> {
        match first_index(self.macro_names(), name) {
            Some(i) => Some(CommandSource::Macro(i as usize)),
            None => match first_index(self.request_names(), name) {
                Some(i) => Some(CommandSource::Request(i as usize)),
                None => match first_builtin(self.builtin_names(), name) {
                    Some(i) => Some(CommandSource::Builtin(i as usize)),
                    None => None,
                },
            },
        }
    }

    pub open spec fn wf(&self) -> bool {
        history_wf(self.history_view())
    }

    pub fn new() -> (r: Self)
        ensures
            r.wf(),
            r.builtin_commands@.len() == 0,
            r.macro_commands@.len() == 0,
            r.request_commands@.len() == 0,
            r.history_view().len() == 0,
    {
        Self::with_builtins(Vec::new())
    }

    /// A manager whose builtin table is `builtin_commands`.
    pub fn with_builtins(builtin_commands: Vec<BuiltinCommand>) -> (r: Self)
        ensures
            r.wf(),
            r.builtin_commands == builtin_commands,
            r.macro_commands@.len() == 0,
            r.request_commands@.len() == 0,
            r.history_view().len() == 0,
    {
        let r = CommandManager {
            builtin_commands,
            macro_commands: Vec::new(),
            request_commands: Vec::new(),
            history: Vec::new(),
            spawned_processes: Vec::new(),
            output: String::new(),
        };
        proof {
            assert(r.history_view() =~= Seq::<Seq<char>>::empty());
        }
        r
    }

    pub fn find_command(&self, name: &str) -> (r: Option<CommandSource>)
        ensures
            r == self.find_spec(name@),
    {
        let mut i: usize = 0;
        while i < self.macro_commands.len()
            invariant
                i <= self.macro_names().len(),
                forall|k: int| 0 <= k < i ==> self.macro_names()[k] != name@,
            decreases self.macro_commands@.len() - i,
        {
            if str_eq(self.macro_commands[i].name.as_str(), name) {
                proof {
                    lemma_first_index_found(self.macro_names(), name@, i as int);
                }
                return Some(CommandSource::Macro(i));
            }
            i = i + 1;
        }
        proof {
            lemma_first_index_missing(self.macro_names(), name@);
        }
        let mut i: usize = 0;
        while i < self.request_commands.len()
            invariant
                i <= self.request_names().len(),
                forall|k: int| 0 <= k < i ==> self.request_names()[k] != name@,
                first_index(self.macro_names(), name@) is None,
            decreases self.request_commands@.len() - i,
        {
            if str_eq(self.request_commands[i].name.as_str(), name) {
                proof {
                    lemma_first_index_found(self.request_names(), name@, i as int);
                }
                return Some(CommandSource::Request(i));
            }
            i = i + 1;
        }
        proof {
            lemma_first_index_missing(self.request_names(), name@);
        }
        let mut i: usize = 0;
        while i < self.builtin_commands.len()
            invariant
                i <= self.builtin_names().len(),
                first_index(self.macro_names(), name@) is None,
                first_index(self.request_names(), name@) is None,
                forall|k: int|
                    0 <= k < i ==> self.builtin_names()[k].0 != name@ && self.builtin_names()[k].1
                        != name@,
            decreases self.builtin_commands@.len() - i,
        {
            let b = &self.builtin_commands[i];
            if str_eq(b.alias, name) || str_eq(b.name, name) {
                proof {
                    lemma_first_builtin_found(self.builtin_names(), name@, i as int);
                }
                return Some(CommandSource::Builtin(i));
            }
            i = i + 1;
        }
        proof {
            lemma_first_builtin_missing(self.builtin_names(), name@);
        }
        None
    }

    pub fn builtin_commands(&self) -> (r: &Vec<BuiltinCommand>)
        ensures
            r == &self.builtin_commands,
    {
        &self.builtin_commands
    }

    pub fn macro_commands(&self) -> (r: &Vec<MacroCommand>)
        ensures
            r == &self.macro_commands,
    {
        &self.macro_commands
    }

    pub fn request_commands(&self) -> (r: &Vec<RequestCommand>)
        ensures
            r == &self.request_commands,
    {
        &self.request_commands
    }

    /// Adds a macro, or replaces the one of the same name in place.
    pub fn register_macro(&mut self, command: MacroCommand)
        ensures
            final(self).builtin_commands == old(self).builtin_commands,
            final(self).request_commands == old(self).request_commands,
            final(self).history == old(self).history,
            match first_index(old(self).macro_names(), command.name@) {
                Some(i) => final(self).macro_commands@ == old(self).macro_commands@.update(i, command),
                None => final(self).macro_commands@ == old(self).macro_commands@.push(command),
            },
    {
        let mut i: usize = 0;
        while i < self.macro_commands.len()
            invariant
                self.macro_commands == old(self).macro_commands,
                self.builtin_commands == old(self).builtin_commands,
                self.request_commands == old(self).request_commands,
                self.history == old(self).history,
                i <= self.macro_names().len(),
                forall|k: int| 0 <= k < i ==> self.macro_names()[k] != command.name@,
            decreases self.macro_commands@.len() - i,
        {
            if str_eq(self.macro_commands[i].name.as_str(), command.name.as_str()) {
                proof {
                    lemma_first_index_found(self.macro_names(), command.name@, i as int);
                }
                self.macro_commands.set(i, command);
                return;
            }
            i = i + 1;
        }
        proof {
            lemma_first_index_missing(self.macro_names(), command.name@);
        }
        self.macro_commands.push(command);
    }

    /// Adds a request command, or replaces the one of the same name in place.
    pub fn register_request(&mut self, command: RequestCommand)
        ensures
            final(self).builtin_commands == old(self).builtin_commands,
            final(self).macro_commands == old(self).macro_commands,
            final(self).history == old(self).history,
            match first_index(old(self).request_names(), command.name@) {
                Some(i) => final(self).request_commands@ == old(self).request_commands@.update(i, command),
                None => final(self).request_commands@ == old(self).request_commands@.push(command),
            },
    {
        let mut i: usize = 0;
        while i < self.request_commands.len()
            invariant
                self.request_commands == old(self).request_commands,
                self.builtin_commands == old(self).builtin_commands,
                self.macro_commands == old(self).macro_commands,
                self.history == old(self).history,
                i <= self.request_names().len(),
                forall|k: int| 0 <= k < i ==> self.request_names()[k] != command.name@,
            decreases self.request_commands@.len() - i,
        {
            if str_eq(self.request_commands[i].name.as_str(), command.name.as_str()) {
                proof {
                    lemma_first_index_found(self.request_names(), command.name@, i as int);
                }
                self.request_commands.set(i, command);
                return;
            }
            i = i + 1;
        }
        proof {
            lemma_first_index_missing(self.request_names(), command.name@);
        }
        self.request_commands.push(command);
    }

    /// Adds to the output that commands leave for the client.
    pub fn push_output_str(&mut self, output: &str)
        ensures
            final(self).output@ == old(self).output@ + output@,
            final(self).builtin_commands == old(self).builtin_commands,
            final(self).macro_commands == old(self).macro_commands,
            final(self).request_commands == old(self).request_commands,
            final(self).history == old(self).history,
    {
        self.output.append(output);
    }

    pub fn history_len(&self) -> (r: usize)
        ensures
            r == self.history_view().len(),
    {
        self.history.len()
    }

    /// The entry at `index`, oldest first; empty past the end.
    pub fn history_entry(&self, index: usize) -> (r: &str)
        ensures
            index < self.history_view().len() ==> r@ == self.history_view()[index as int],
            index >= self.history_view().len() ==> r@.len() == 0,
    {
        if index < self.history.len() {
            self.history[index].as_str()
        } else {
            proof {
                reveal_strlit("");
            }
            ""
        }
    }

    pub fn add_to_history(&mut self, entry: &str)
        requires
            old(self).wf(),
        ensures
            final(self).wf(),
            final(self).history_view() == history_after(old(self).history_view(), entry@),
            final(self).builtin_commands == old(self).builtin_commands,
            final(self).macro_commands == old(self).macro_commands,
            final(self).request_commands == old(self).request_commands,
    {
        proof {
            lemma_history_stays_wf(self.history_view(), entry@);
        }
        if entry.is_empty() {
            return;
        }
        let first = entry.get_char(0);
        if first == ' ' || first == '\t' || first == '\n' || first == '\x0C' || first == '\r' {
            return;
        }
        let len = self.history.len();
        if len > 0 && str_eq(self.history[len - 1].as_str(), entry) {
            return;
        }
        let ghost h = self.history_view();
        if len >= HISTORY_CAPACITY {
            self.history.remove(0);
        }
        self.history.push(String::from_str(entry));
        proof {
            if len >= HISTORY_CAPACITY {
                assert(self.history_view() =~= h.drop_first().push(entry@));
            } else {
                assert(self.history_view() =~= h.push(entry@));
            }
        }
    }

    /// Resolves the command's name and returns its arguments, positioned after the name.
    pub fn parse<'a>(&self, text: &'a str) -> (r: Result<(CommandSource, CommandArgs<'a>), CommandError>)
        ensures
            match parse_spec(self, text) {
                Ok((source, bang, next)) => r is Ok && r->Ok_0.0 == source && r->Ok_0.1.bang == bang
                    && r->Ok_0.1.tokens.text == text && r->Ok_0.1.tokens.pos == next
                    && r->Ok_0.1.len == 0 && r->Ok_0.1.wf(),
                Err(e) => r is Err && r->Err_0 == e,
            },
            r matches Ok((CommandSource::Macro(i), _)) ==> i < self.macro_commands@.len(),
            r matches Ok((CommandSource::Request(i), _)) ==> i < self.request_commands@.len(),
            r matches Ok((CommandSource::Builtin(i), _)) ==> i < self.builtin_commands@.len(),
    {
        let mut tokens = CommandTokenIter::new(text);
        let ghost s = text.spec_bytes();
        proof {
            crate::token::lemma_token_offsets(s, 0);
        }
        let command_token = match tokens.next() {
            Some((CommandTokenKind::Text, token)) => token,
            Some((_, token)) => {
                return Err(CommandError::InvalidCommandName(token));
            },
            None => {
                return Err(CommandError::InvalidCommandName(CommandToken { from: 0, to: 0 }));
            },
        };
        let bytes = text.as_bytes();
        let bang = command_token.to > command_token.from && bytes[command_token.to - 1] == 0x21u8;
        let name_end = if bang {
            command_token.to - 1
        } else {
            command_token.to
        };
        let name_token = CommandToken { from: command_token.from, to: name_end };
        if name_end == command_token.from {
            return Err(CommandError::InvalidCommandName(name_token));
        }
        let name = name_token.as_str(text);
        let source = match self.find_command(name) {
            Some(source) => source,
            None => {
                return Err(CommandError::CommandNotFound(command_token));
            },
        };
        proof {
            lemma_find_spec_bounds(self, name@);
        }
        if bang {
            match source {
                CommandSource::Builtin(i) => {
                    if !self.builtin_commands[i].accepts_bang {
                        return Err(CommandError::CommandDoesNotAcceptBang);
                    }
                },
                _ => {
                    return Err(CommandError::CommandDoesNotAcceptBang);
                },
            }
        }
        Ok((source, CommandArgs { bang, tokens, len: 0 }))
    }

    /// Resolves a command to what runs it: a builtin with its arguments, the client a request
    /// goes to, or a macro whose arguments were checked (no bang, no flags, no arguments).
    pub fn dispatch<'a>(&self, command: &'a str) -> (r: Result<Dispatch<'a>, CommandError>)
        ensures
            match dispatch_chars(self, command@) {
                Err(e) => r is Err && r->Err_0 == e,
                Ok(DispatchKind::Builtin(i, bang, next)) => r is Ok && (r->Ok_0 matches Dispatch::Builtin(j, args)
                    && j == i && args.bang == bang && args.tokens.text == command && args.tokens.pos == next
                    && args.len == 0 && args.wf()),
                Ok(DispatchKind::Request(h)) => r is Ok && (r->Ok_0 matches Dispatch::Request(g) && g == h),
                Ok(DispatchKind::Macro(i)) => r is Ok && (r->Ok_0 matches Dispatch::Macro(j, vals) && j == i
                    && vals@ == macro_args(self, command@) && vals@.len() == self.macro_commands@[i as int].params@.len())
                    && i < self.macro_commands@.len(),
            },
    {
        let (source, mut args) = match self.parse(command) {
            Ok(parsed) => parsed,
            Err(e) => {
                return Err(e);
            },
        };
        match source {
            CommandSource::Builtin(i) => Ok(Dispatch::Builtin(i, args)),
            CommandSource::Request(i) => Ok(Dispatch::Request(self.request_commands[i].client_handle)),
            CommandSource::Macro(i) => {
                let mut no_flags: Vec<(&'static str, Option<CommandValue>)> = Vec::new();
                proof {
                    assert(flag_names(no_flags@) =~= Seq::<Seq<u8>>::empty());
                    assert(flag_values(no_flags@) =~= Seq::<Option<CommandValue>>::empty());
                }
                if let Err(e) = args.get_flags(&mut no_flags) {
                    return Err(e);
                }
                let n = self.macro_commands[i].params.len();
                let ghost s = command.spec_bytes();
                let ghost p0 = args.pos();
                let ghost parsed = parse_spec(self, command);
                let mut values: Vec<CommandToken> = Vec::new();
                while values.len() < n
                    invariant
                        parsed == parse_spec(self, command),
                        parsed is Ok && parsed->Ok_0.0 == CommandSource::Macro(i) && parsed->Ok_0.2 == p0,
                        flags_at(s, p0, Seq::empty(), Seq::empty()).1 is Ok,
                        i < self.macro_commands@.len(),
                        args.wf(),
                        args.tokens.text == command,
                        s == args.text(),
                        values@.len() <= n,
                        n == self.macro_commands@[i as int].params@.len(),
                        take_args(s, p0, n as nat, 0) == prepend_args(
                            values@,
                            take_args(s, args.pos(), (n - values@.len()) as nat, args.len),
                        ),
                    decreases n - values@.len(),
                {
                    let ghost before = values@;
                    match args.next() {
                        Ok(CommandValue::Token(t)) => {
                            values.push(t);
                            proof {
                                assert(before.push(t) =~= before + seq![t]);
                                match take_args(s, args.pos(), (n - values@.len()) as nat, args.len) {
                                    Ok((ts, q, l)) => {
                                        assert(before + (seq![t] + ts) =~= before.push(t) + ts);
                                    },
                                    Err(_) => {},
                                }
                            }
                        },
                        Ok(CommandValue::Register(_)) => {
                            return Err(CommandError::InvalidToken(CommandToken { from: 0, to: 0 }));
                        },
                        Err(e) => {
                            return Err(e);
                        },
                    }
                }
                proof {
                    assert(values@ + Seq::<CommandToken>::empty() =~= values@);
                }
                if let Err(e) = args.assert_empty() {
                    return Err(e);
                }
                Ok(Dispatch::Macro(i, values))
            },
        }
    }

    /// Evaluates one command. A builtin runs through `handler` with its arguments, and its
    /// result is returned; a request is forwarded through it to its client. A macro evaluates
    /// the commands of its body in turn, nested at most `depth` deep: it stops at the first
    /// that asks for an operation, and wraps the first error with the failing command.
    pub fn eval<H: CommandHandler>(&self, handler: &mut H, command: &str, depth: usize) -> (r: Result<
        Option<CommandOperation>,
        CommandError,
    >)
        ensures
            dispatch_chars(self, command@) is Err ==> r is Err && r->Err_0 == dispatch_chars(self, command@)->Err_0,
            dispatch_chars(self, command@) matches Ok(DispatchKind::Request(_)) ==> r matches Ok(None),
            dispatch_chars(self, command@) matches Ok(DispatchKind::Macro(i)) ==> {
                let body = script_commands(vstd::utf8::encode_utf8(macro_body(self, i, command@)));
                if depth == 0 {
                    r matches Err(CommandError::MacroNestingTooDeep)
                } else {
                    &&& body.len() == 0 ==> (r is Ok && r->Ok_0 is None)
                    &&& r is Err ==> wraps_body_command(r->Err_0, i, body)
                    &&& body.len() > 0 && dispatch_chars(self, body[0]) is Err ==> r is Err && wraps(
                        r->Err_0,
                        i,
                        body[0],
                        dispatch_chars(self, body[0])->Err_0,
                    )
                }
            },
        decreases depth,
    {
        let dispatched = match self.dispatch(command) {
            Ok(d) => d,
            Err(e) => {
                return Err(e);
            },
        };
        match dispatched {
            Dispatch::Builtin(i, args) => handler.call_builtin(i, args),
            Dispatch::Request(client_handle) => {
                handler.send_request(client_handle, command);
                Ok(None)
            },
            Dispatch::Macro(i, values) => {
                if depth == 0 {
                    return Err(CommandError::MacroNestingTooDeep);
                }
                let mc = &self.macro_commands[i];
                let ghost names = mc.params@.map_values(|p: String| p@);
                let ghost texts = values@.map_values(|t: CommandToken| crate::display::token_text(command@, t));
                let mut text = String::from_str(mc.commands.as_str());
                let mut k: usize = 0;
                while k < mc.params.len()
                    invariant
                        mc == &self.macro_commands@[i as int],
                        names == mc.params@.map_values(|p: String| p@),
                        texts == values@.map_values(|t: CommandToken| crate::display::token_text(command@, t)),
                        values@.len() == mc.params@.len(),
                        k <= mc.params@.len(),
                        text@ == substitute_all(mc.commands@, names, texts, k as int),
                    decreases mc.params@.len() - k,
                {
                    let value = values[k].as_str(command);
                    text = substitute_exec(text.as_str(), mc.params[k].as_str(), value);
                    k = k + 1;
                }
                let body = text.as_str();
                let ghost cmds = script_commands(body.spec_bytes());
                let mut commands = CommandIter::new(body);
                let ghost mut k: int = 0;
                proof {
                    lemma_yielded_start(commands);
                }
                loop
                    invariant
                        depth > 0,
                        dispatch_chars(self, command@) == Ok::<DispatchKind, CommandError>(DispatchKind::Macro(i)),
                        i < self.macro_commands@.len(),
                        body@ == macro_body(self, i, command@),
                        cmds == script_commands(body.spec_bytes()),
                        commands.text == body,
                        yielded(commands, k),
                        k <= cmds.len(),
                        k > 0 ==> dispatch_chars(self, cmds[0]) is Ok,
                    decreases cmds.len() - k,
                {
                    let next = match commands.next_counted(Ghost(k)) {
                        Some(next) => next,
                        None => {
                            return Ok(None);
                        },
                    };
                    let ghost at = k;
                    proof {
                        k = k + 1;
                    }
                    match self.eval(handler, next, depth - 1) {
                        Ok(None) => {},
                        Ok(Some(op)) => {
                            return Ok(Some(op));
                        },
                        Err(error) => {
                            let wrapped = CommandError::MacroCommandError {
                                index: i,
                                command: String::from_str(next),
                                error: Box::new(error),
                            };
                            proof {
                                assert(cmds[at] == next@);
                            }
                            return Err(wrapped);
                        },
                    }
                }
            },
        }
    }

    /// Evaluates each command of `commands` in turn, through `handler`. Stops at the first
    /// command that asks for an operation, which is returned, or at the first error, whose
    /// display (framed with `source_path`) is returned instead.
    pub fn eval_commands_then_output<H: CommandHandler>(
        &self,
        handler: &mut H,
        commands: &str,
        source_path: Option<&str>,
        depth: usize,
    ) -> (r: (Option<CommandOperation>, Option<String>))
        ensures
            ({
                let cmds = script_commands(commands.spec_bytes());
                &&& cmds.len() == 0 ==> r.0 is None && r.1 is None
                &&& r.1 is Some ==> r.0 is None && exists|k: int, e: CommandError|
                    0 <= k < cmds.len() && r.1->0@ == error_text(e, cmds[k], quoted_view(source_path), *self)
                &&& cmds.len() > 0 && dispatch_chars(self, cmds[0]) is Err ==> r.0 is None && r.1 is Some
                    && r.1->0@ == error_text(dispatch_chars(self, cmds[0])->Err_0, cmds[0], quoted_view(source_path), *self)
            }),
    {
        let mut iter = CommandIter::new(commands);
        let ghost cmds = script_commands(commands.spec_bytes());
        let ghost mut k: int = 0;
        proof {
            lemma_yielded_start(iter);
        }
        loop
            invariant
                iter.text == commands,
                cmds == script_commands(commands.spec_bytes()),
                yielded(iter, k),
                k <= cmds.len(),
                k > 0 ==> dispatch_chars(self, cmds[0]) is Ok,
            decreases cmds.len() - k,
        {
            let command = match iter.next_counted(Ghost(k)) {
                Some(command) => command,
                None => {
                    return (None, None);
                },
            };
            let ghost at = k;
            proof {
                k = k + 1;
            }
            match self.eval(handler, command, depth) {
                Ok(None) => {},
                Ok(Some(op)) => {
                    return (Some(op), None);
                },
                Err(error) => {
                    let text = error.display(command, source_path, self).fmt();
                    proof {
                        assert(cmds[at] == command@);
                        assert(text@ == error_text(error, cmds[at], quoted_view(source_path), *self));
                        assert(exists|k: int, e: CommandError|
                            0 <= k < cmds.len() && text@ == error_text(e, cmds[k], quoted_view(source_path), *self));
                    }
                    return (None, Some(text));
                },
            }
        }
    }

    /// Takes a slot for a new process (the first one no longer alive, else a new one) and
    /// sets it up; returns its index.
    pub fn spawn_process(
        &mut self,
        client_handle: Option<ClientHandle>,
        stdin: Option<&str>,
        output_name: Option<&str>,
        on_output: Option<&str>,
        split_on_byte: Option<u8>,
    ) -> (r: usize)
        ensures
            match first_dead(old(self).spawned_processes@) {
                Some(i) => r == i && final(self).spawned_processes@.len() == old(self).spawned_processes@.len(),
                None => r == old(self).spawned_processes@.len() && final(self).spawned_processes@.len()
                    == old(self).spawned_processes@.len() + 1,
            },
            forall|k: int| 0 <= k < old(self).spawned_processes@.len() && k != r ==> #[trigger] final(self).spawned_processes@[k]
                == old(self).spawned_processes@[k],
            ({
                let p = final(self).spawned_processes@[r as int];
                &&& p.alive
                &&& p.client_handle == client_handle
                &&& p.output@.len() == 0
                &&& p.split_on_byte == split_on_byte
                &&& p.output_var_name@ == match output_name { Some(n) => n@, None => Seq::empty() }
                &&& p.on_output@ == match on_output { Some(o) => o@, None => Seq::empty() }
                &&& match stdin { Some(i) => p.input matches Some(b) && b@ == i.spec_bytes(), None => p.input is None }
            }),
            final(self).builtin_commands == old(self).builtin_commands,
            final(self).macro_commands == old(self).macro_commands,
            final(self).request_commands == old(self).request_commands,
            final(self).history == old(self).history,
    {
        let mut index: usize = 0;
        while index < self.spawned_processes.len() && self.spawned_processes[index].alive
            invariant
                index <= self.spawned_processes@.len(),
                self.spawned_processes == old(self).spawned_processes,
                forall|k: int| 0 <= k < index ==> (#[trigger] self.spawned_processes@[k]).alive,
            decreases self.spawned_processes@.len() - index,
        {
            index = index + 1;
        }
        proof {
            lemma_first_dead(old(self).spawned_processes@, index as int);
        }
        let process = Process {
            alive: true,
            client_handle,
            input: match stdin {
                Some(text) => Some(vstd::slice::slice_to_vec(text.as_bytes())),
                None => None,
            },
            output: Vec::new(),
            split_on_byte,
            output_var_name: match output_name {
                Some(n) => String::from_str(n),
                None => String::new(),
            },
            on_output: match on_output {
                Some(o) => String::from_str(o),
                None => String::new(),
            },
        };
        if index < self.spawned_processes.len() {
            self.spawned_processes.set(index, process);
        } else {
            self.spawned_processes.push(process);
        }
        index
    }

    /// Hands over the input that waits for process `index`, once it has started.
    pub fn on_process_spawned(&mut self, index: usize) -> (r: Option<Vec<u8>>)
        requires
            index < old(self).spawned_processes@.len(),
        ensures
            r == old(self).spawned_processes@[index as int].input,
            final(self).spawned_processes@.len() == old(self).spawned_processes@.len(),
            final(self).spawned_processes@[index as int].input is None,
            final(self).spawned_processes@[index as int].output == old(self).spawned_processes@[index as int].output,
            final(self).spawned_processes@[index as int].on_output == old(self).spawned_processes@[index as int].on_output,
            final(self).spawned_processes@[index as int].alive == old(self).spawned_processes@[index as int].alive,
            forall|k: int| 0 <= k < old(self).spawned_processes@.len() && k != index ==> #[trigger] final(self).spawned_processes@[k]
                == old(self).spawned_processes@[k],
    {
        let mut p = empty_process();
        self.spawned_processes.set_and_swap(index, &mut p);
        let input = p.input;
        p.input = None;
        self.spawned_processes.set(index, p);
        input
    }

    /// Takes output of process `index`. With a split byte, every complete piece that is not
    /// empty yields the process's command text, with the piece in place of the output
    /// variable's name, to evaluate (or, when it is not UTF-8, an error), and only what
    /// follows the last split byte stays buffered.
    pub fn on_process_output(&mut self, index: usize, bytes: &[u8]) -> (r: Vec<ProcessOutput>)
        requires
            index < old(self).spawned_processes@.len(),
        ensures
            final(self).spawned_processes@.len() == old(self).spawned_processes@.len(),
            forall|k: int| 0 <= k < old(self).spawned_processes@.len() && k != index ==> #[trigger] final(self).spawned_processes@[k]
                == old(self).spawned_processes@[k],
            ({
                let p = old(self).spawned_processes@[index as int];
                let q = final(self).spawned_processes@[index as int];
                let acc = p.output@ + bytes@;
                &&& q.on_output == p.on_output
                &&& q.alive == p.alive
                &&& q.client_handle == p.client_handle
                &&& q.split_on_byte == p.split_on_byte
                &&& if p.on_output@.len() == 0 {
                    r@.len() == 0 && q.output@ == p.output@
                } else {
                    match p.split_on_byte {
                        None => r@.len() == 0 && q.output@ == acc,
                        Some(b) => {
                            let ps = pieces(acc, b, 0);
                            &&& q.output@ == acc.subrange(buffered_from(acc, b, 0), acc.len() as int)
                            &&& r@.len() == ps.len()
                            &&& forall|k: int| 0 <= k < r@.len() ==> is_output_of(#[trigger] r@[k], ps[k], p.on_output@, p.output_var_name@)
                        },
                    }
                }
            }),
    {
        let mut p = empty_process();
        self.spawned_processes.set_and_swap(index, &mut p);
        let mut outputs: Vec<ProcessOutput> = Vec::new();
        if p.on_output.as_str().is_empty() {
            self.spawned_processes.set(index, p);
            return outputs;
        }
        let ghost old_output = p.output@;
        let ghost swapped = self.spawned_processes@;
        let ghost orig = old(self).spawned_processes@[index as int];
        let mut k: usize = 0;
        while k < bytes.len()
            invariant
                k <= bytes@.len(),
                p.output@ == old_output + bytes@.subrange(0, k as int),
                orig == old(self).spawned_processes@[index as int],
                old_output == orig.output@,
                p.on_output == orig.on_output,
                p.output_var_name == orig.output_var_name,
                p.alive == orig.alive,
                p.client_handle == orig.client_handle,
                p.split_on_byte == orig.split_on_byte,
                self.spawned_processes@ == swapped,
            decreases bytes@.len() - k,
        {
            p.output.push(bytes[k]);
            proof {
                assert(p.output@ =~= old_output + bytes@.subrange(0, k + 1));
            }
            k = k + 1;
        }
        proof {
            assert(bytes@.subrange(0, bytes@.len() as int) =~= bytes@);
        }
        let split = match p.split_on_byte {
            Some(b) => b,
            None => {
                self.spawned_processes.set(index, p);
                return outputs;
            },
        };
        let ghost acc = p.output@;
        let ghost mut done: Seq<Seq<u8>> = Seq::empty();
        let total = p.output.len();
        let mut start: usize = 0;
        loop
            invariant
                total == acc.len(),
                orig == old(self).spawned_processes@[index as int],
                start <= acc.len(),
                p.output@ == acc,
                p.on_output == orig.on_output,
                p.alive == orig.alive,
                p.client_handle == orig.client_handle,
                p.split_on_byte == Some(split),
                orig.split_on_byte == Some(split),
                self.spawned_processes@ == swapped,
                index < swapped.len(),
                swapped.len() == old(self).spawned_processes@.len(),
                forall|j: int| 0 <= j < swapped.len() && j != index ==> swapped[j] == old(self).spawned_processes@[j],
                acc == orig.output@ + bytes@,
                orig.on_output@.len() > 0,
                p.output_var_name == orig.output_var_name,
                pieces(acc, split, 0) == done + pieces(acc, split, start as int),
                buffered_from(acc, split, 0) == buffered_from(acc, split, start as int),
                outputs@.len() == done.len(),
                forall|j: int| 0 <= j < outputs@.len() ==> is_output_of(#[trigger] outputs@[j], done[j], orig.on_output@, orig.output_var_name@),
            decreases acc.len() - start,
        {
            let found = crate::token::find_byte(p.output.as_slice(), start, split);
            match found {
                Some(end) => {
                    proof {
                        crate::token::lemma_byte_index_bounds(acc, start as int, split);
                    }
                    let piece = vstd::slice::slice_subrange(p.output.as_slice(), start, end);
                    if end > start {
                        let out = match utf8_str(piece) {
                            Some(text) => {
                                proof {
                                    vstd::utf8::encode_utf8_decode_utf8(text@);
                                }
                                ProcessOutput::Commands(
                                    substitute_exec(p.on_output.as_str(), p.output_var_name.as_str(), text),
                                )
                            },
                            None => ProcessOutput::InvalidUtf8,
                        };
                        outputs.push(out);
                        proof {
                            assert(pieces(acc, split, start as int) == seq![piece@] + pieces(acc, split, end + 1));
                            assert(done.push(piece@) + pieces(acc, split, end + 1) =~= done + (seq![piece@] + pieces(acc, split, end + 1)));
                            done = done.push(piece@);
                        }
                    } else {
                        proof {
                            assert(pieces(acc, split, start as int) =~= pieces(acc, split, end + 1));
                        }
                    }
                    start = end + 1;
                },
                None => {
                    let rest = vstd::slice::slice_subrange(p.output.as_slice(), start, p.output.len());
                    p.output = vstd::slice::slice_to_vec(rest);
                    self.spawned_processes.set(index, p);
                    proof {
                        assert(buffered_from(acc, split, start as int) == start);
                        assert(p.output@ == acc.subrange(start as int, acc.len() as int));
                        assert(pieces(acc, split, start as int) =~= Seq::<Seq<u8>>::empty());
                        assert(done + Seq::<Seq<u8>>::empty() =~= done);
                    }
                    return outputs;
                },
            }
        }
    }

    /// Notes that process `index` ended. When it succeeded and its output waits for a command,
    /// the command text, with the whole output in place of the output variable's name, is
    /// returned to evaluate once (or an error when the output is not UTF-8).
    pub fn on_process_exit(&mut self, index: usize, success: bool) -> (r: Option<ProcessOutput>)
        requires
            index < old(self).spawned_processes@.len(),
        ensures
            final(self).spawned_processes@.len() == old(self).spawned_processes@.len(),
            forall|k: int| 0 <= k < old(self).spawned_processes@.len() && k != index ==> #[trigger] final(self).spawned_processes@[k]
                == old(self).spawned_processes@[k],
            !final(self).spawned_processes@[index as int].alive,
            ({
                let p = old(self).spawned_processes@[index as int];
                if !success || p.on_output@.len() == 0 || p.output@.len() == 0 {
                    r is None
                } else {
                    r matches Some(o) && is_output_of(o, p.output@, p.on_output@, p.output_var_name@)
                }
            }),
    {
        let mut p = empty_process();
        self.spawned_processes.set_and_swap(index, &mut p);
        p.alive = false;
        let result = if !success || p.on_output.as_str().is_empty() || p.output.len() == 0 {
            None
        } else {
            match utf8_str(p.output.as_slice()) {
                Some(text) => {
                    proof {
                        vstd::utf8::encode_utf8_decode_utf8(text@);
                    }
                    Some(ProcessOutput::Commands(substitute_exec(p.on_output.as_str(), p.output_var_name.as_str(), text)))
                },
                None => Some(ProcessOutput::InvalidUtf8),
            }
        };
        self.spawned_processes.set(index, p);
        result
    }
}

/// What a builtin command sees while it runs: the clients and views it reads, which buffers
/// have unsaved changes (by buffer handle), who sent the command, and its arguments.
pub struct CommandContext<'a> {
    pub clients: &'a ClientCollection,
    pub buffer_views: &'a BufferViewCollection,
    pub buffers_needing_save: &'a Vec<bool>,
    pub client_handle: Option<TargetClient>,
    pub source_path: Option<&'a str>,
    pub args: CommandArgs<'a>,
    pub output: String,
}

impl<'a> CommandContext<'a> {
    /// The view that the sending client shows.
    pub open spec fn view_of_sender(&self) -> Option<usize> {
        match self.client_handle {
            Some(TargetClient::Local) => self.clients.local.current_buffer_view_handle,
            Some(TargetClient::Remote(h)) => if h.0 < self.clients.remotes@.len() {
                match self.clients.remotes@[h.0 as int] {
                    Some(c) => c.current_buffer_view_handle,
                    None => None,
                }
            } else {
                None
            },
            None => None,
        }
    }

    pub fn current_buffer_view_handle(&self) -> (r: Result<usize, CommandError>)
        ensures
            match self.view_of_sender() {
                Some(h) => r == Ok::<usize, CommandError>(h),
                None => r matches Err(CommandError::NoBufferOpened),
            },
    {
        let client = match self.client_handle {
            Some(target) => self.clients.get(target),
            None => None,
        };
        match client {
            Some(c) => match c.current_buffer_view_handle {
                Some(h) => Ok(h),
                None => Err(CommandError::NoBufferOpened),
            },
            None => Err(CommandError::NoBufferOpened),
        }
    }

    pub fn current_buffer_handle(&self) -> (r: Result<usize, CommandError>)
        ensures
            match self.view_of_sender() {
                Some(v) => if v < self.buffer_views.buffer_views@.len() {
                    r == Ok::<usize, CommandError>(self.buffer_views.buffer_views@[v as int].buffer_handle)
                } else {
                    r matches Err(CommandError::NoBufferOpened)
                },
                None => r matches Err(CommandError::NoBufferOpened),
            },
    {
        let view = match self.current_buffer_view_handle() {
            Ok(view) => view,
            Err(e) => {
                return Err(e);
            },
        };
        if view < self.buffer_views.buffer_views.len() {
            Ok(self.buffer_views.buffer_views[view].buffer_handle)
        } else {
            Err(CommandError::NoBufferOpened)
        }
    }

    /// Succeeds with a bang, or when no buffer has unsaved changes.
    pub fn assert_can_discard_all_buffers(&self) -> (r: Result<(), CommandError>)
        ensures
            (self.args.bang || forall|i: int| 0 <= i < self.buffers_needing_save@.len() ==> !#[trigger] self.buffers_needing_save@[i])
                ==> r is Ok,
            !(self.args.bang || forall|i: int| 0 <= i < self.buffers_needing_save@.len() ==> !#[trigger] self.buffers_needing_save@[i])
                ==> r matches Err(CommandError::UnsavedChanges),
    {
        if self.args.bang {
            return Ok(());
        }
        let mut i: usize = 0;
        while i < self.buffers_needing_save.len()
            invariant
                !self.args.bang,
                i <= self.buffers_needing_save@.len(),
                forall|k: int| 0 <= k < i ==> !#[trigger] self.buffers_needing_save@[k],
            decreases self.buffers_needing_save@.len() - i,
        {
            if self.buffers_needing_save[i] {
                return Err(CommandError::UnsavedChanges);
            }
            i = i + 1;
        }
        Ok(())
    }

    /// Succeeds with a bang, or when buffer `handle` has no unsaved changes; fails for an
    /// unknown buffer.
    pub fn assert_can_discard_buffer(&self, handle: u32) -> (r: Result<(), CommandError>)
        ensures
            handle >= self.buffers_needing_save@.len() ==> (r matches Err(CommandError::InvalidBufferHandle(h)) && h == handle),
            handle < self.buffers_needing_save@.len() ==> if self.args.bang || !self.buffers_needing_save@[handle as int] {
                r is Ok
            } else {
                r matches Err(CommandError::UnsavedChanges)
            },
    {
        if handle as usize >= self.buffers_needing_save.len() {
            return Err(CommandError::InvalidBufferHandle(handle));
        }
        if self.args.bang || !self.buffers_needing_save[handle as usize] {
            Ok(())
        } else {
            Err(CommandError::UnsavedChanges)
        }
    }
}

/// A process to start, as ranges of the text it was written in: the program, its arguments,
/// and (from the environment text) its environment variables as key and value.
pub struct ProcessCommand {
    pub name: CommandToken,
    pub args: Vec<CommandToken>,
    pub env: Vec<(CommandToken, CommandToken)>,
}

/// The arguments of a process command from `p` on: every token, any kind, but an
/// unterminated one.
pub open spec fn process_args_from(s: Seq<u8>, p: int) -> Result<Seq<CommandToken>, CommandError>
    decreases s.len() - p,
{
    match token_at(s, p) {
        None => Ok(Seq::empty()),
        Some(t) => if t.0 == CommandTokenKind::Unterminated {
            Err(CommandError::InvalidToken(tok(t)))
        } else if p < t.3 <= s.len() {
            match process_args_from(s, t.3) {
                Ok(rest) => Ok(seq![tok(t)] + rest),
                Err(e) => Err(e),
            }
        } else {
            Ok(seq![tok(t)])
        },
    }
}

/// The environment `key = value` entries from `p` on.
pub open spec fn env_from(s: Seq<u8>, p: int) -> Result<Seq<(CommandToken, CommandToken)>, CommandError>
    decreases s.len() - p,
{
    match token_at(s, p) {
        None => Ok(Seq::empty()),
        Some(k) => if k.0 == CommandTokenKind::Unterminated {
            Err(CommandError::UnterminatedToken(tok(k)))
        } else if k.0 != CommandTokenKind::Text {
            Err(CommandError::InvalidToken(tok(k)))
        } else {
            match token_at(s, k.3) {
                None => Err(CommandError::UnterminatedToken(tok(k))),
                Some(e) => if e.0 != CommandTokenKind::Equals {
                    Err(CommandError::InvalidToken(tok(e)))
                } else {
                    match token_at(s, e.3) {
                        None => Err(CommandError::UnterminatedToken(tok(e))),
                        Some(v) => if v.0 == CommandTokenKind::Unterminated {
                            Err(CommandError::UnterminatedToken(tok(v)))
                        } else if v.0 != CommandTokenKind::Text {
                            Err(CommandError::InvalidToken(tok(v)))
                        } else if p < v.3 <= s.len() {
                            match env_from(s, v.3) {
                                Ok(rest) => Ok(seq![(tok(k), tok(v))] + rest),
                                Err(err) => Err(err),
                            }
                        } else {
                            Ok(seq![(tok(k), tok(v))])
                        }
                    }
                },
            }
        },
    }
}

/// Reads a process command: its first token names the program, the others are its
/// arguments; `environment` holds `key = value` entries.
pub fn parse_process_command(command: &str, environment: &str) -> (r: Result<ProcessCommand, CommandError>)
    ensures
        ({
            let c = command.spec_bytes();
            match token_at(c, 0) {
                None => r is Err && r->Err_0 == CommandError::InvalidToken(CommandToken { from: 0, to: 0 }),
                Some(t) => if t.0 == CommandTokenKind::Unterminated {
                    r is Err && r->Err_0 == CommandError::UnterminatedToken(tok(t))
                } else {
                    match process_args_from(c, t.3) {
                        Err(e) => r is Err && r->Err_0 == e,
                        Ok(args) => match env_from(environment.spec_bytes(), 0) {
                            Err(e) => r is Err && r->Err_0 == e,
                            Ok(env) => r is Ok && r->Ok_0.name == tok(t) && r->Ok_0.args@ == args
                                && r->Ok_0.env@ == env,
                        },
                    }
                },
            }
        }),
{
    let ghost c = command.spec_bytes();
    let mut tokens = CommandTokenIter::new(command);
    proof {
        crate::token::lemma_token_offsets(c, 0);
    }
    let name = match tokens.next() {
        Some((CommandTokenKind::Unterminated, token)) => {
            return Err(CommandError::UnterminatedToken(token));
        },
        Some((_, token)) => token,
        None => {
            return Err(CommandError::InvalidToken(CommandToken { from: 0, to: 0 }));
        },
    };
    let ghost args_start = tokens.pos as int;
    let ghost first = token_at(c, 0);
    let ghost ft = token_at(c, 0)->0;
    let mut args: Vec<CommandToken> = Vec::new();
    loop
        invariant
            first == token_at(c, 0),
            first == Some(ft),
            ft.0 != CommandTokenKind::Unterminated,
            args_start == ft.3,
            name == tok(ft),
            tokens.text == command,
            tokens.pos <= c.len(),
            c == command.spec_bytes(),
            match process_args_from(c, args_start) {
                Ok(all) => match process_args_from(c, tokens.pos as int) {
                    Ok(rest) => all == args@ + rest,
                    Err(_) => false,
                },
                Err(e) => process_args_from(c, tokens.pos as int) == Err::<Seq<CommandToken>, CommandError>(e),
            },
        ensures
            process_args_from(c, args_start) == Ok::<Seq<CommandToken>, CommandError>(args@),
        decreases c.len() - tokens.pos,
    {
        let ghost p = tokens.pos as int;
        proof {
            crate::token::lemma_token_offsets(c, p);
        }
        match tokens.next() {
            None => {
                proof {
                    assert(args@ + Seq::<CommandToken>::empty() =~= args@);
                }
                break;
            },
            Some((CommandTokenKind::Unterminated, token)) => {
                return Err(CommandError::InvalidToken(token));
            },
            Some((_, token)) => {
                proof {
                    match process_args_from(c, tokens.pos as int) {
                        Ok(rest) => {
                            assert(args@.push(token) + rest =~= args@ + (seq![token] + rest));
                        },
                        Err(_) => {},
                    }
                }
                args.push(token);
            },
        }
    }
    let ghost e = environment.spec_bytes();
    let mut env_tokens = CommandTokenIter::new(environment);
    let mut env: Vec<(CommandToken, CommandToken)> = Vec::new();
    loop
        invariant
            first == token_at(c, 0),
            c == command.spec_bytes(),
            first == Some(ft),
            ft.0 != CommandTokenKind::Unterminated,
            args_start == ft.3,
            name == tok(ft),
            process_args_from(c, args_start) == Ok::<Seq<CommandToken>, CommandError>(args@),
            env_tokens.text == environment,
            env_tokens.pos <= e.len(),
            e == environment.spec_bytes(),
            match env_from(e, 0) {
                Ok(all) => match env_from(e, env_tokens.pos as int) {
                    Ok(rest) => all == env@ + rest,
                    Err(_) => false,
                },
                Err(err) => env_from(e, env_tokens.pos as int) == Err::<Seq<(CommandToken, CommandToken)>, CommandError>(err),
            },
        ensures
            env_from(e, 0) == Ok::<Seq<(CommandToken, CommandToken)>, CommandError>(env@),
        decreases e.len() - env_tokens.pos,
    {
        let ghost p = env_tokens.pos as int;
        proof {
            crate::token::lemma_token_offsets(e, p);
        }
        let key = match env_tokens.next() {
            None => {
                proof {
                    assert(env@ + Seq::<(CommandToken, CommandToken)>::empty() =~= env@);
                }
                break;
            },
            Some((CommandTokenKind::Text, token)) => token,
            Some((CommandTokenKind::Unterminated, token)) => {
                return Err(CommandError::UnterminatedToken(token));
            },
            Some((_, token)) => {
                return Err(CommandError::InvalidToken(token));
            },
        };
        let ghost q = env_tokens.pos as int;
        proof {
            crate::token::lemma_token_offsets(e, q);
        }
        let equals = match env_tokens.next() {
            Some((CommandTokenKind::Equals, token)) => token,
            Some((_, token)) => {
                return Err(CommandError::InvalidToken(token));
            },
            None => {
                return Err(CommandError::UnterminatedToken(key));
            },
        };
        let ghost w = env_tokens.pos as int;
        proof {
            crate::token::lemma_token_offsets(e, w);
        }
        let value = match env_tokens.next() {
            Some((CommandTokenKind::Text, token)) => token,
            Some((CommandTokenKind::Unterminated, token)) => {
                return Err(CommandError::UnterminatedToken(token));
            },
            Some((_, token)) => {
                return Err(CommandError::InvalidToken(token));
            },
            None => {
                return Err(CommandError::UnterminatedToken(equals));
            },
        };
        proof {
            match env_from(e, env_tokens.pos as int) {
                Ok(rest) => {
                    assert(env@.push((key, value)) + rest =~= env@ + (seq![(key, value)] + rest));
                },
                Err(_) => {},
            }
        }
        env.push((key, value));
    }
    Ok(ProcessCommand { name, args, env })
}

/// A text file built into the program, by name.
#[derive(Clone, Copy)]
pub struct ResourceFile {
    pub name: &'static str,
    pub content: &'static str,
}

} // verus!
