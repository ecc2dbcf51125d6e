use vstd::prelude::*;
use vstd::string::*;

verus! {

#[derive(Clone, Copy, PartialEq, Eq, Structural, Debug)]
pub enum KeyCode {
    Unknown,
    Backspace,
    Left,
    Right,
    Up,
    Down,
    Home,
    End,
    PageUp,
    PageDown,
    Delete,
    Esc,
    Char(char),
}

#[derive(Clone, Copy, PartialEq, Eq, Structural, Debug)]
pub struct Key {
    pub code: KeyCode,
    pub shift: bool,
    pub control: bool,
    pub alt: bool,
}

impl Key {
    pub open spec fn plain(code: KeyCode) -> Key {
        Key { code, shift: false, control: false, alt: false }
    }

    pub fn unknown() -> (r: Key)
        ensures
            r == Key::plain(KeyCode::Unknown),
    {
        Key { code: KeyCode::Unknown, shift: false, control: false, alt: false }
    }
}

/// The name a key has between `<` and `>`, if it has one.
pub open spec fn code_name(code: KeyCode) -> Option<Seq<char>> {
    match code {
        KeyCode::Backspace => Some(seq!['b', 'a', 'c', 'k', 's', 'p', 'a', 'c', 'e']),
        KeyCode::Left => Some(seq!['l', 'e', 'f', 't']),
        KeyCode::Right => Some(seq!['r', 'i', 'g', 'h', 't']),
        KeyCode::Up => Some(seq!['u', 'p']),
        KeyCode::Down => Some(seq!['d', 'o', 'w', 'n']),
        KeyCode::Home => Some(seq!['h', 'o', 'm', 'e']),
        KeyCode::End => Some(seq!['e', 'n', 'd']),
        KeyCode::PageUp => Some(seq!['p', 'a', 'g', 'e', 'u', 'p']),
        KeyCode::PageDown => Some(seq!['p', 'a', 'g', 'e', 'd', 'o', 'w', 'n']),
        KeyCode::Delete => Some(seq!['d', 'e', 'l', 'e', 't', 'e']),
        KeyCode::Esc => Some(seq!['e', 's', 'c']),
        KeyCode::Char(' ') => Some(seq!['s', 'p', 'a', 'c', 'e']),
        KeyCode::Char('\n') => Some(seq!['e', 'n', 't', 'e', 'r']),
        KeyCode::Char('\t') => Some(seq!['t', 'a', 'b']),
        KeyCode::Char('<') => Some(seq!['l', 't']),
        KeyCode::Char('>') => Some(seq!['g', 't']),
        _ => None,
    }
}

/// The key named `name`: a name from the table, or any single character.
pub open spec fn named_code(name: Seq<char>) -> Option<KeyCode> {
    if name.len() == 1 {
        Some(KeyCode::Char(name[0]))
    } else if name == seq!['b', 'a', 'c', 'k', 's', 'p', 'a', 'c', 'e'] {
        Some(KeyCode::Backspace)
    } else if name == seq!['l', 'e', 'f', 't'] {
        Some(KeyCode::Left)
    } else if name == seq!['r', 'i', 'g', 'h', 't'] {
        Some(KeyCode::Right)
    } else if name == seq!['u', 'p'] {
        Some(KeyCode::Up)
    } else if name == seq!['d', 'o', 'w', 'n'] {
        Some(KeyCode::Down)
    } else if name == seq!['h', 'o', 'm', 'e'] {
        Some(KeyCode::Home)
    } else if name == seq!['e', 'n', 'd'] {
        Some(KeyCode::End)
    } else if name == seq!['p', 'a', 'g', 'e', 'u', 'p'] {
        Some(KeyCode::PageUp)
    } else if name == seq!['p', 'a', 'g', 'e', 'd', 'o', 'w', 'n'] {
        Some(KeyCode::PageDown)
    } else if name == seq!['d', 'e', 'l', 'e', 't', 'e'] {
        Some(KeyCode::Delete)
    } else if name == seq!['e', 's', 'c'] {
        Some(KeyCode::Esc)
    } else if name == seq!['s', 'p', 'a', 'c', 'e'] {
        Some(KeyCode::Char(' '))
    } else if name == seq!['e', 'n', 't', 'e', 'r'] {
        Some(KeyCode::Char('\n'))
    } else if name == seq!['t', 'a', 'b'] {
        Some(KeyCode::Char('\t'))
    } else if name == seq!['l', 't'] {
        Some(KeyCode::Char('<'))
    } else if name == seq!['g', 't'] {
        Some(KeyCode::Char('>'))
    } else {
        None
    }
}

pub open spec fn modifiers_text(k: Key) -> Seq<char> {
    (if k.control { seq!['c', '-'] } else { Seq::empty() }) + (if k.alt { seq!['a', '-'] } else {
        Seq::empty()
    }) + (if k.shift { seq!['s', '-'] } else { Seq::empty() })
}

/// How a key is written: a character alone, or `<` modifiers and name `>`.
pub open spec fn key_text(k: Key) -> Seq<char> {
    let name = match code_name(k.code) {
        Some(n) => n,
        None => match k.code {
            KeyCode::Char(c) => seq![c],
            _ => Seq::empty(),
        },
    };
    if !k.shift && !k.control && !k.alt && code_name(k.code) is None && k.code is Char {
        name
    } else {
        seq!['<'] + modifiers_text(k) + name + seq!['>']
    }
}

/// A key that can be written and read back.
pub open spec fn key_wf(k: Key) -> bool {
    k.code != KeyCode::Unknown
}

/// Strips `c-`, `a-`, `s-` in that order from a bracketed body, leaving at least one character.
pub open spec fn key_of_body(body: Seq<char>) -> Option<Key> {
    let control = body.len() > 2 && body[0] == 'c' && body[1] == '-';
    let b1 = if control { body.subrange(2, body.len() as int) } else { body };
    let alt = b1.len() > 2 && b1[0] == 'a' && b1[1] == '-';
    let b2 = if alt { b1.subrange(2, b1.len() as int) } else { b1 };
    let shift = b2.len() > 2 && b2[0] == 's' && b2[1] == '-';
    let b3 = if shift { b2.subrange(2, b2.len() as int) } else { b2 };
    match named_code(b3) {
        Some(code) => Some(Key { code, shift, control, alt }),
        None => None,
    }
}

/// Index of the first `>` at or after `i`.
pub open spec fn close_index(s: Seq<char>, i: int) -> Option<int>
    decreases s.len() - i,
{
    if i < 0 || i >= s.len() {
        None
    } else if s[i] == '>' {
        Some(i)
    } else {
        close_index(s, i + 1)
    }
}

/// The first key written at the start of `s`, and how many characters it takes.
pub open spec fn parse_one(s: Seq<char>) -> Option<(Key, int)> {
    if s.len() == 0 {
        None
    } else if s[0] != '<' {
        Some((Key::plain(KeyCode::Char(s[0])), 1))
    } else {
        match close_index(s, 1) {
            None => None,
            Some(e) => match key_of_body(s.subrange(1, e)) {
                Some(k) => Some((k, e + 1)),
                None => None,
            },
        }
    }
}

/// The keys written in `s`, or `None` if some part is not a key.
pub open spec fn parse_keys(s: Seq<char>) -> Option<Seq<Key>>
    decreases s.len(),
{
    if s.len() == 0 {
        Some(Seq::empty())
    } else {
        match parse_one(s) {
            Some((k, n)) => if 0 < n <= s.len() {
                match parse_keys(s.subrange(n, s.len() as int)) {
                    Some(rest) => Some(seq![k] + rest),
                    None => None,
                }
            } else {
                None
            },
            None => None,
        }
    }
}

/// All keys of a sequence written one after the other.
pub open spec fn keys_text(keys: Seq<Key>) -> Seq<char>
    decreases keys.len(),
{
    if keys.len() == 0 {
        Seq::empty()
    } else {
        key_text(keys[0]) + keys_text(keys.subrange(1, keys.len() as int))
    }
}

proof fn lemma_name_round_trip(code: KeyCode)
    requires
        code != KeyCode::Unknown,
    ensures
        code_name(code) matches Some(n) ==> named_code(n) == Some(code) && n.len() >= 2
            && n[0] != 'c' && n[0] != 'a' && (n[0] == 's' ==> n[1] != '-')
            && forall|i: int| 0 <= i < n.len() ==> n[i] != '>',
{
    reveal_with_fuel(named_code, 1);
    match code_name(code) {
        Some(n) => {
            assert forall|i: int| 0 <= i < n.len() implies n[i] != '>' by {}
        },
        None => {},
    }
}

proof fn lemma_close_index(s: Seq<char>, i: int, j: int)
    requires
        0 <= i <= j < s.len(),
        s[j] == '>',
        forall|k: int| i <= k < j ==> s[k] != '>',
    ensures
        close_index(s, i) == Some(j),
    decreases j - i,
{
    if i < j {
        lemma_close_index(s, i + 1, j);
    }
}

/// Reading a written key back gives that key, and the rest of the text after it.
#[verifier::spinoff_prover]
#[verifier::rlimit(60)]
pub proof fn lemma_key_round_trip(k: Key, rest: Seq<char>)
    requires
        key_wf(k),
    ensures
        key_text(k).len() > 0,
        parse_one(key_text(k) + rest) == Some((k, key_text(k).len() as int)),
{
    lemma_name_round_trip(k.code);
    let s = key_text(k) + rest;
    let name = match code_name(k.code) {
        Some(n) => n,
        None => match k.code {
            KeyCode::Char(c) => seq![c],
            _ => Seq::empty(),
        },
    };
    if !k.shift && !k.control && !k.alt && code_name(k.code) is None && k.code is Char {
        assert(s[0] == key_text(k)[0]);
    } else {
        let mods = modifiers_text(k);
        let body = mods + name;
        assert(key_text(k) =~= seq!['<'] + body + seq!['>']);
        let e = 1 + body.len() as int;
        assert(name.len() >= 1);
        assert forall|i: int| 0 <= i < name.len() implies name[i] != '>' by {
            if code_name(k.code) is None {
                assert(name[i] == k.code->Char_0);
            }
        }
        assert forall|i: int| 0 <= i < mods.len() implies mods[i] != '>' by {}
        assert forall|i: int| 1 <= i < e implies s[i] != '>' by {
            assert(s[i] == body[i - 1]);
            if i - 1 < mods.len() {
                assert(body[i - 1] == mods[i - 1]);
            } else {
                assert(body[i - 1] == name[i - 1 - mods.len()]);
            }
        }
        assert(s[e] == '>');
        lemma_close_index(s, 1, e);
        assert(s.subrange(1, e) =~= body);
        let control = body.len() > 2 && body[0] == 'c' && body[1] == '-';
        assert(control == k.control);
        let b1 = if control { body.subrange(2, body.len() as int) } else { body };
        assert(b1 =~= (if k.alt { seq!['a', '-'] } else { Seq::empty() }) + (if k.shift { seq!['s', '-'] } else { Seq::empty() }) + name);
        let alt = b1.len() > 2 && b1[0] == 'a' && b1[1] == '-';
        assert(alt == k.alt);
        let b2 = if alt { b1.subrange(2, b1.len() as int) } else { b1 };
        assert(b2 =~= (if k.shift { seq!['s', '-'] } else { Seq::empty() }) + name);
        let shift = b2.len() > 2 && b2[0] == 's' && b2[1] == '-';
        assert(shift == k.shift);
        let b3 = if shift { b2.subrange(2, b2.len() as int) } else { b2 };
        assert(b3 =~= name);
        assert(named_code(name) == Some(k.code));
        assert(key_of_body(body) == Some(k));
    }
}

/// Recording keys as text and reading that text back gives the same keys: a macro replays
/// exactly the input it recorded.
pub proof fn lemma_macro_rehydration(keys: Seq<Key>)
    requires
        forall|i: int| 0 <= i < keys.len() ==> key_wf(#[trigger] keys[i]),
    ensures
        parse_keys(keys_text(keys)) == Some(keys),
    decreases keys.len(),
{
    if keys.len() > 0 {
        let tail = keys.subrange(1, keys.len() as int);
        assert forall|i: int| 0 <= i < tail.len() implies key_wf(#[trigger] tail[i]) by {
            assert(tail[i] == keys[i + 1]);
        }
        lemma_macro_rehydration(tail);
        lemma_key_round_trip(keys[0], keys_text(tail));
        let s = keys_text(keys);
        let n = key_text(keys[0]).len() as int;
        assert(s =~= key_text(keys[0]) + keys_text(tail));
        assert(s.subrange(n, s.len() as int) =~= keys_text(tail));
        assert(seq![keys[0]] + tail =~= keys);
    }
}

fn slice_is(chars: &Vec<char>, from: usize, to: usize, name: &[char]) -> (r: bool)
    requires
        from <= to <= chars@.len(),
    ensures
        r == (chars@.subrange(from as int, to as int) == name@),
{
    if to - from != name.len() {
        return false;
    }
    let mut i: usize = 0;
    while i < name.len()
        invariant
            from <= to <= chars@.len(),
            to - from == name@.len(),
            i <= name@.len(),
            forall|k: int| 0 <= k < i ==> chars@[from + k] == name@[k],
        decreases name@.len() - i,
    {
        if chars[from + i] != name[i] {
            proof {
                assert(chars@.subrange(from as int, to as int)[i as int] != name@[i as int]);
            }
            return false;
        }
        i = i + 1;
    }
    proof {
        assert(chars@.subrange(from as int, to as int) =~= name@);
    }
    true
}

fn named_code_exec(chars: &Vec<char>, from: usize, to: usize) -> (r: Option<KeyCode>)
    requires
        from <= to <= chars@.len(),
    ensures
        r == named_code(chars@.subrange(from as int, to as int)),
{
    if to - from == 1 {
        return Some(KeyCode::Char(chars[from]));
    }
    if slice_is(chars, from, to, ['b', 'a', 'c', 'k', 's', 'p', 'a', 'c', 'e'].as_slice()) {
        Some(KeyCode::Backspace)
    }     else if slice_is(chars, from, to, ['l', 'e', 'f', 't'].as_slice()) {
        Some(KeyCode::Left)
    }     else if slice_is(chars, from, to, ['r', 'i', 'g', 'h', 't'].as_slice()) {
        Some(KeyCode::Right)
    }     else if slice_is(chars, from, to, ['u', 'p'].as_slice()) {
        Some(KeyCode::Up)
    }     else if slice_is(chars, from, to, ['d', 'o', 'w', 'n'].as_slice()) {
        Some(KeyCode::Down)
    }     else if slice_is(chars, from, to, ['h', 'o', 'm', 'e'].as_slice()) {
        Some(KeyCode::Home)
    }     else if slice_is(chars, from, to, ['e', 'n', 'd'].as_slice()) {
        Some(KeyCode::End)
    }     else if slice_is(chars, from, to, ['p', 'a', 'g', 'e', 'u', 'p'].as_slice()) {
        Some(KeyCode::PageUp)
    }     else if slice_is(chars, from, to, ['p', 'a', 'g', 'e', 'd', 'o', 'w', 'n'].as_slice()) {
        Some(KeyCode::PageDown)
    }     else if slice_is(chars, from, to, ['d', 'e', 'l', 'e', 't', 'e'].as_slice()) {
        Some(KeyCode::Delete)
    }     else if slice_is(chars, from, to, ['e', 's', 'c'].as_slice()) {
        Some(KeyCode::Esc)
    } else if slice_is(chars, from, to, ['s', 'p', 'a', 'c', 'e'].as_slice()) {
        Some(KeyCode::Char(' '))
    } else if slice_is(chars, from, to, ['e', 'n', 't', 'e', 'r'].as_slice()) {
        Some(KeyCode::Char('\n'))
    } else if slice_is(chars, from, to, ['t', 'a', 'b'].as_slice()) {
        Some(KeyCode::Char('\t'))
    } else if slice_is(chars, from, to, ['l', 't'].as_slice()) {
        Some(KeyCode::Char('<'))
    } else if slice_is(chars, from, to, ['g', 't'].as_slice()) {
        Some(KeyCode::Char('>'))
    } else {
        None
    }
}

fn starts_modifier(chars: &Vec<char>, from: usize, to: usize, m: char) -> (r: bool)
    requires
        from <= to <= chars@.len(),
    ensures
        r == ({
            let b = chars@.subrange(from as int, to as int);
            b.len() > 2 && b[0] == m && b[1] == '-'
        }),
{
    to - from > 2 && chars[from] == m && chars[from + 1] == '-'
}

/// The first key written at `chars[from..]`, and how many characters it takes.
fn parse_one_exec(chars: &Vec<char>, from: usize) -> (r: Option<(Key, usize)>)
    requires
        from < chars@.len(),
    ensures
        match parse_one(chars@.subrange(from as int, chars@.len() as int)) {
            Some((k, n)) => r == Some((k, n as usize)),
            None => r is None,
        },
{
    let len = chars.len();
    let ghost s = chars@.subrange(from as int, len as int);
    if chars[from] != '<' {
        return Some((Key { code: KeyCode::Char(chars[from]), shift: false, control: false, alt: false }, 1));
    }
    let mut e = from + 1;
    while e < len && chars[e] != '>'
        invariant
            from < e <= len,
            len == chars@.len(),
            s == chars@.subrange(from as int, len as int),
            close_index(s, 1) == close_index(s, e - from),
        decreases len - e,
    {
        e = e + 1;
    }
    if e >= len {
        return None;
    }
    proof {
        assert(s[e - from] == '>');
        assert(s.subrange(1, e - from) =~= chars@.subrange(from + 1, e as int));
    }
    let mut b = from + 1;
    let control = starts_modifier(chars, b, e, 'c');
    if control {
        b = b + 2;
    }
    proof {
        if control {
            assert(chars@.subrange(from + 1, e as int).subrange(2, e - from - 1) =~= chars@.subrange(from + 3, e as int));
        }
    }
    let alt = starts_modifier(chars, b, e, 'a');
    let ghost b1 = b;
    if alt {
        b = b + 2;
    }
    proof {
        if alt {
            assert(chars@.subrange(b1 as int, e as int).subrange(2, e - b1) =~= chars@.subrange(b1 + 2, e as int));
        }
    }
    let shift = starts_modifier(chars, b, e, 's');
    let ghost b2 = b;
    if shift {
        b = b + 2;
    }
    proof {
        if shift {
            assert(chars@.subrange(b2 as int, e as int).subrange(2, e - b2) =~= chars@.subrange(b2 + 2, e as int));
        }
    }
    match named_code_exec(chars, b, e) {
        Some(code) => Some((Key { code, shift, control, alt }, e - from + 1)),
        None => None,
    }
}

proof fn lemma_close_index_bounds(s: Seq<char>, i: int)
    ensures
        close_index(s, i) matches Some(e) ==> i <= e < s.len(),
    decreases s.len() - i,
{
    if 0 <= i < s.len() && s[i] != '>' {
        lemma_close_index_bounds(s, i + 1);
    }
}

proof fn lemma_parse_one_bounds(s: Seq<char>)
    ensures
        parse_one(s) matches Some((k, n)) ==> 0 < n <= s.len(),
{
    lemma_close_index_bounds(s, 1);
}

/// Where a key stream stands: the index of the next key to read.
pub struct KeysIterator {
    pub index: usize,
}

impl KeysIterator {
    /// The next key, or an unknown key past the end.
    pub fn next(&mut self, keys: &BufferedKeys) -> (r: Key)
        ensures
            old(self).index < keys.0@.len() ==> r == keys.0@[old(self).index as int] && final(self).index
                == old(self).index + 1,
            old(self).index >= keys.0@.len() ==> r == Key::plain(KeyCode::Unknown) && final(self).index
                == old(self).index,
    {
        if self.index < keys.0.len() {
            let next = keys.0[self.index];
            self.index = self.index + 1;
            next
        } else {
            Key::unknown()
        }
    }
}

pub struct BufferedKeysParseError<'a> {
    pub keys: &'a str,
}

/// Keys waiting to be handled.
pub struct BufferedKeys(pub Vec<Key>);

impl BufferedKeys {
    pub fn new() -> (r: Self)
        ensures
            r.0@.len() == 0,
    {
        BufferedKeys(Vec::new())
    }

    pub fn as_slice(&self) -> (r: &[Key])
        ensures
            r@ == self.0@,
    {
        self.0.as_slice()
    }

    /// Appends the keys written in `keys`, and returns a stream positioned at the first of
    /// them. When some part is not a key, nothing is appended.
    pub fn parse<'a>(&mut self, keys: &'a str) -> (r: Result<KeysIterator, BufferedKeysParseError<'a>>)
        ensures
            match parse_keys(keys@) {
                Some(parsed) => r is Ok && r->Ok_0.index == old(self).0@.len() && final(self).0@
                    == old(self).0@ + parsed,
                None => r is Err && r->Err_0.keys == keys && final(self).0@ == old(self).0@,
            },
    {
        let index = self.0.len();
        let n = keys.unicode_len();
        let mut chars: Vec<char> = Vec::new();
        while chars.len() < n
            invariant
                n == keys@.len(),
                chars@.len() <= n,
                chars@ == keys@.subrange(0, chars@.len() as int),
            decreases n - chars@.len(),
        {
            let c = keys.get_char(chars.len());
            chars.push(c);
            proof {
                assert(chars@ =~= keys@.subrange(0, chars@.len() as int));
            }
        }
        proof {
            assert(chars@ =~= keys@);
        }
        let mut i: usize = 0;
        while i < n
            invariant
                chars@ == keys@,
                n == chars@.len(),
                i <= n,
                self.0@.len() >= index,
                index == old(self).0@.len(),
                self.0@.subrange(0, index as int) == old(self).0@,
                parse_keys(keys@) == match parse_keys(chars@.subrange(i as int, n as int)) {
                    Some(rest) => Some(self.0@.subrange(index as int, self.0@.len() as int) + rest),
                    None => None::<Seq<Key>>,
                },
            decreases n - i,
        {
            let ghost s = chars@.subrange(i as int, n as int);
            proof {
                lemma_parse_one_bounds(s);
            }
            match parse_one_exec(&chars, i) {
                Some((key, len)) => {
                    proof {
                        assert(s.subrange(len as int, s.len() as int) =~= chars@.subrange(i + len, n as int));
                        let before = self.0@.subrange(index as int, self.0@.len() as int);
                        assert(before.push(key) =~= self.0@.push(key).subrange(index as int, self.0@.len() + 1int));
                        match parse_keys(chars@.subrange(i + len, n as int)) {
                            Some(rest) => {
                                assert(before + (seq![key] + rest) =~= before.push(key) + rest);
                            },
                            None => {},
                        }
                    }
                    self.0.push(key);
                    proof {
                        assert(self.0@.subrange(0, index as int) =~= old(self).0@);
                    }
                    i = i + len;
                },
                None => {
                    self.0.truncate(index);
                    proof {
                        assert(self.0@ =~= old(self).0@);
                    }
                    return Err(BufferedKeysParseError { keys });
                },
            }
        }
        proof {
            assert(chars@.subrange(n as int, n as int) =~= Seq::<char>::empty());
            assert(self.0@ =~= old(self).0@ + self.0@.subrange(index as int, self.0@.len() as int));
            assert(self.0@.subrange(index as int, self.0@.len() as int) + Seq::<Key>::empty() =~= self.0@.subrange(index as int, self.0@.len() as int));
        }
        Ok(KeysIterator { index })
    }
}

fn code_name_exec(code: KeyCode) -> (r: Option<&'static str>)
    ensures
        match code_name(code) {
            Some(n) => r is Some && r->0@ == n,
            None => r is None,
        },
{
    match code {
        KeyCode::Backspace => {
            proof { reveal_strlit("backspace"); }
            Some("backspace")
        },
        KeyCode::Left => {
            proof { reveal_strlit("left"); }
            Some("left")
        },
        KeyCode::Right => {
            proof { reveal_strlit("right"); }
            Some("right")
        },
        KeyCode::Up => {
            proof { reveal_strlit("up"); }
            Some("up")
        },
        KeyCode::Down => {
            proof { reveal_strlit("down"); }
            Some("down")
        },
        KeyCode::Home => {
            proof { reveal_strlit("home"); }
            Some("home")
        },
        KeyCode::End => {
            proof { reveal_strlit("end"); }
            Some("end")
        },
        KeyCode::PageUp => {
            proof { reveal_strlit("pageup"); }
            Some("pageup")
        },
        KeyCode::PageDown => {
            proof { reveal_strlit("pagedown"); }
            Some("pagedown")
        },
        KeyCode::Delete => {
            proof { reveal_strlit("delete"); }
            Some("delete")
        },
        KeyCode::Esc => {
            proof { reveal_strlit("esc"); }
            Some("esc")
        },
        KeyCode::Char(' ') => {
            proof { reveal_strlit("space"); }
            Some("space")
        },
        KeyCode::Char('\n') => {
            proof { reveal_strlit("enter"); }
            Some("enter")
        },
        KeyCode::Char('\t') => {
            proof { reveal_strlit("tab"); }
            Some("tab")
        },
        KeyCode::Char('<') => {
            proof { reveal_strlit("lt"); }
            Some("lt")
        },
        KeyCode::Char('>') => {
            proof { reveal_strlit("gt"); }
            Some("gt")
        },
        _ => None,
    }
}

/// Relies on `char::to_string`: the string of that one character.
#[verifier::external_body]
pub(crate) fn char_string(c: char) -> (r: String)
    ensures
        r@ == seq![c],
{
    c.to_string()
}

/// Appends how `k` is written to `out`.
pub fn push_key_text(out: &mut String, k: Key)
    ensures
        final(out)@ == old(out)@ + key_text(k),
{
    let ghost start = out@;
    let name = code_name_exec(k.code);
    let plain = !k.shift && !k.control && !k.alt && name.is_none();
    match k.code {
        KeyCode::Char(c) => {
            if plain {
                let text = char_string(c);
                out.append(text.as_str());
                return;
            }
        },
        _ => {},
    }
    proof {
        reveal_strlit("<");
        reveal_strlit(">");
        reveal_strlit("c-");
        reveal_strlit("a-");
        reveal_strlit("s-");
    }
    out.append("<");
    if k.control {
        out.append("c-");
    }
    if k.alt {
        out.append("a-");
    }
    if k.shift {
        out.append("s-");
    }
    match name {
        Some(n) => out.append(n),
        None => match k.code {
            KeyCode::Char(c) => {
                let text = char_string(c);
                out.append(text.as_str());
            },
            _ => {},
        },
    }
    out.append(">");
    proof {
        let body_name = match code_name(k.code) {
            Some(n) => n,
            None => match k.code {
                KeyCode::Char(c) => seq![c],
                _ => Seq::empty(),
            },
        };
        assert(out@ =~= start + (seq!['<'] + modifiers_text(k) + body_name + seq!['>']));
    }
}

/// Appends how each key of `keys` is written, in order.
pub fn push_keys_text(out: &mut String, keys: &[Key])
    ensures
        final(out)@ == old(out)@ + keys_text(keys@),
{
    let mut i: usize = 0;
    proof {
        assert(keys@.subrange(0, keys@.len() as int) =~= keys@);
    }
    while i < keys.len()
        invariant
            i <= keys@.len(),
            out@ + keys_text(keys@.subrange(i as int, keys@.len() as int)) == old(out)@ + keys_text(keys@),
        decreases keys@.len() - i,
    {
        let ghost before = out@;
        push_key_text(out, keys[i]);
        proof {
            let tail = keys@.subrange(i as int, keys@.len() as int);
            assert(keys_text(tail) == key_text(tail[0]) + keys_text(tail.subrange(1, tail.len() as int)));
            assert(tail.subrange(1, tail.len() as int) =~= keys@.subrange(i + 1, keys@.len() as int));
            assert(out@ + keys_text(keys@.subrange(i + 1, keys@.len() as int)) =~= before + keys_text(tail));
        }
        i = i + 1;
    }
    proof {
        assert(keys@.subrange(keys@.len() as int, keys@.len() as int) =~= Seq::<Key>::empty());
        assert(out@ + Seq::<char>::empty() =~= out@);
    }
}

} // verus!
