use vstd::prelude::*;
use vstd::slice::slice_subrange;
use vstd::string::*;
use vstd::utf8::*;

verus! {

pub open spec fn is_ascii_ws(b: u8) -> bool {
    b == 0x20u8 || b == 0x09u8 || b == 0x0au8 || b == 0x0cu8 || b == 0x0du8
}

pub fn is_ws_byte(b: u8) -> (r: bool)
    ensures
        r == is_ascii_ws(b),
{
    b == 0x20u8 || b == 0x09u8 || b == 0x0au8 || b == 0x0cu8 || b == 0x0du8
}

/// A byte that ends an unquoted token: whitespace, a quote, `{` or `=`.
pub open spec fn is_token_boundary(b: u8) -> bool {
    is_ascii_ws(b) || b == 0x22u8 || b == 0x27u8 || b == 0x7bu8 || b == 0x3du8
}

/// Index of the byte that closes a group opened before `i`, with `depth` groups open at `i`.
pub open spec fn balanced_end(s: Seq<u8>, i: int, depth: int, open: u8, close: u8) -> Option<int>
    decreases s.len() - i,
{
    if i < 0 || i >= s.len() {
        None
    } else if s[i] == open {
        balanced_end(s, i + 1, depth + 1, open, close)
    } else if s[i] == close {
        if depth <= 1 {
            Some(i)
        } else {
            balanced_end(s, i + 1, depth - 1, open, close)
        }
    } else {
        balanced_end(s, i + 1, depth, open, close)
    }
}

/// First index at or after `p` past whitespace and line continuations (`\` then newline).
pub open spec fn skip_blank(s: Seq<u8>, p: int) -> int
    decreases s.len() - p,
{
    if 0 <= p < s.len() && is_ascii_ws(s[p]) {
        skip_blank(s, p + 1)
    } else if 0 <= p && p + 1 < s.len() && s[p] == 0x5cu8 && s[p + 1] == 0x0au8 {
        skip_blank(s, p + 2)
    } else {
        p
    }
}

/// First index at or after `p` holding `b`.
pub open spec fn byte_index(s: Seq<u8>, p: int, b: u8) -> Option<int>
    decreases s.len() - p,
{
    if p < 0 || p >= s.len() {
        None
    } else if s[p] == b {
        Some(p)
    } else {
        byte_index(s, p + 1, b)
    }
}

/// First index at or after `p` holding a token boundary, or the length.
pub open spec fn boundary_index(s: Seq<u8>, p: int) -> int
    decreases s.len() - p,
{
    if p < 0 || p >= s.len() {
        s.len() as int
    } else if is_token_boundary(s[p]) {
        p
    } else {
        boundary_index(s, p + 1)
    }
}

#[derive(Clone, Copy, PartialEq, Eq, Structural, Debug)]
pub enum CommandTokenKind {
    Text,
    Flag,
    Equals,
    Unterminated,
}

/// A half-open byte range into the command text.
#[derive(Clone, Copy, PartialEq, Eq, Structural, Debug, Default)]
pub struct CommandToken {
    pub from: usize,
    pub to: usize,
}

/// The token that starts at or after `p`: its kind, its range, and where scanning resumes.
pub open spec fn token_at(s: Seq<u8>, p: int) -> Option<(CommandTokenKind, int, int, int)> {
    let q = skip_blank(s, p);
    if q < 0 || q >= s.len() {
        None
    } else if s[q] == 0x22u8 || s[q] == 0x27u8 {
        match byte_index(s, q + 1, s[q]) {
            Some(i) => Some((CommandTokenKind::Text, q + 1, i, i + 1)),
            None => Some((CommandTokenKind::Unterminated, q + 1, s.len() as int, s.len() as int)),
        }
    } else if s[q] == 0x7bu8 {
        match balanced_end(s, q + 1, 1, 0x7bu8, 0x7du8) {
            Some(i) => Some((CommandTokenKind::Text, q + 1, i, i + 1)),
            None => Some((CommandTokenKind::Unterminated, q + 1, s.len() as int, s.len() as int)),
        }
    } else if s[q] == 0x2du8 {
        let e = boundary_index(s, q + 1);
        Some((CommandTokenKind::Flag, q, e, e))
    } else if s[q] == 0x3du8 {
        Some((CommandTokenKind::Equals, q, q + 1, q + 1))
    } else {
        let e = boundary_index(s, q + 1);
        Some((CommandTokenKind::Text, q, e, e))
    }
}

pub open spec fn token_of(t: (CommandTokenKind, int, int, int)) -> (CommandTokenKind, CommandToken) {
    (t.0, CommandToken { from: t.1 as usize, to: t.2 as usize })
}

/// Every token emitted (all tokens from position `p` on).
pub open spec fn tokens_from(s: Seq<u8>, p: int) -> Seq<(CommandTokenKind, CommandToken)>
    decreases s.len() - p,
{
    match token_at(s, p) {
        Some(t) => if p < t.3 <= s.len() {
            seq![token_of(t)] + tokens_from(s, t.3)
        } else {
            seq![token_of(t)]
        },
        None => Seq::empty(),
    }
}

pub proof fn lemma_balanced_end_bounds(s: Seq<u8>, i: int, depth: int, open: u8, close: u8)
    ensures
        match balanced_end(s, i, depth, open, close) {
            Some(e) => i <= e < s.len() && s[e] == close,
            None => true,
        },
    decreases s.len() - i,
{
    if i < 0 || i >= s.len() {
    } else if s[i] == open {
        lemma_balanced_end_bounds(s, i + 1, depth + 1, open, close);
    } else if s[i] == close {
        if depth > 1 {
            lemma_balanced_end_bounds(s, i + 1, depth - 1, open, close);
        }
    } else {
        lemma_balanced_end_bounds(s, i + 1, depth, open, close);
    }
}

pub proof fn lemma_skip_blank_bounds(s: Seq<u8>, p: int)
    requires
        0 <= p,
    ensures
        p <= skip_blank(s, p),
        p <= s.len() ==> skip_blank(s, p) <= s.len(),
    decreases s.len() - p,
{
    if 0 <= p < s.len() && is_ascii_ws(s[p]) {
        lemma_skip_blank_bounds(s, p + 1);
    } else if 0 <= p && p + 1 < s.len() && s[p] == 0x5cu8 && s[p + 1] == 0x0au8 {
        lemma_skip_blank_bounds(s, p + 2);
    }
}

pub proof fn lemma_byte_index_bounds(s: Seq<u8>, p: int, b: u8)
    ensures
        match byte_index(s, p, b) {
            Some(i) => p <= i < s.len() && s[i] == b && forall|k: int| p <= k < i ==> s[k] != b,
            None => forall|k: int| 0 <= p <= k < s.len() ==> s[k] != b,
        },
    decreases s.len() - p,
{
    if p >= 0 && p < s.len() && s[p] != b {
        lemma_byte_index_bounds(s, p + 1, b);
    }
}

pub proof fn lemma_boundary_index_bounds(s: Seq<u8>, p: int)
    requires
        0 <= p <= s.len(),
    ensures
        p <= boundary_index(s, p) <= s.len(),
        forall|k: int| p <= k < boundary_index(s, p) ==> !is_token_boundary(#[trigger] s[k]),
        boundary_index(s, p) < s.len() ==> is_token_boundary(s[boundary_index(s, p)]),
    decreases s.len() - p,
{
    if p < s.len() && !is_token_boundary(s[p]) {
        lemma_boundary_index_bounds(s, p + 1);
    }
}

/// Finds the byte that closes a group whose opening byte stands just before `bytes`.
pub fn find_balanced(bytes: &[u8], start: u8, end: u8) -> (r: Option<usize>)
    ensures
        match r {
            Some(i) => balanced_end(bytes@, 0, 1, start, end) == Some(i as int),
            None => balanced_end(bytes@, 0, 1, start, end) is None,
        },
{
    // groups opened inside `bytes` and not closed yet
    let mut nested: usize = 0;
    let mut i: usize = 0;
    while i < bytes.len()
        invariant
            i <= bytes@.len(),
            nested <= i,
            balanced_end(bytes@, 0, 1, start, end) == balanced_end(bytes@, i as int, nested + 1, start, end),
        decreases bytes@.len() - i,
    {
        let b = bytes[i];
        if b == start {
            nested = nested + 1;
        } else if b == end {
            if nested == 0 {
                return Some(i);
            }
            nested = nested - 1;
        }
        i = i + 1;
    }
    None
}

fn skip_blank_exec(bytes: &[u8], p: usize) -> (r: usize)
    requires
        p <= bytes@.len(),
    ensures
        r as int == skip_blank(bytes@, p as int),
        p <= r <= bytes@.len(),
{
    let mut i = p;
    while i < bytes.len()
        invariant
            p <= i <= bytes@.len(),
            skip_blank(bytes@, p as int) == skip_blank(bytes@, i as int),
        decreases bytes@.len() - i,
    {
        let b = bytes[i];
        if b == 0x20u8 || b == 0x09u8 || b == 0x0au8 || b == 0x0cu8 || b == 0x0du8 {
            i = i + 1;
        } else if b == 0x5cu8 && i + 1 < bytes.len() && bytes[i + 1] == 0x0au8 {
            i = i + 2;
        } else {
            return i;
        }
    }
    i
}

/// Index of the first `b` in `bytes` at or after `p`.
pub fn find_byte(bytes: &[u8], p: usize, b: u8) -> (r: Option<usize>)
    requires
        p <= bytes@.len(),
    ensures
        match r {
            Some(i) => byte_index(bytes@, p as int, b) == Some(i as int),
            None => byte_index(bytes@, p as int, b) is None,
        },
{
    byte_index_exec(bytes, p, b)
}

fn byte_index_exec(bytes: &[u8], p: usize, b: u8) -> (r: Option<usize>)
    requires
        p <= bytes@.len(),
    ensures
        match r {
            Some(i) => byte_index(bytes@, p as int, b) == Some(i as int),
            None => byte_index(bytes@, p as int, b) is None,
        },
{
    let mut i = p;
    while i < bytes.len()
        invariant
            p <= i <= bytes@.len(),
            byte_index(bytes@, p as int, b) == byte_index(bytes@, i as int, b),
        decreases bytes@.len() - i,
    {
        if bytes[i] == b {
            return Some(i);
        }
        i = i + 1;
    }
    None
}

fn boundary_index_exec(bytes: &[u8], p: usize) -> (r: usize)
    requires
        p <= bytes@.len(),
    ensures
        r as int == boundary_index(bytes@, p as int),
{
    let mut i = p;
    while i < bytes.len()
        invariant
            p <= i <= bytes@.len(),
            boundary_index(bytes@, p as int) == boundary_index(bytes@, i as int),
        decreases bytes@.len() - i,
    {
        let b = bytes[i];
        if b == 0x20u8 || b == 0x09u8 || b == 0x0au8 || b == 0x0cu8 || b == 0x0du8 || b == 0x22u8
            || b == 0x27u8 || b == 0x7bu8 || b == 0x3du8 {
            return i;
        }
        i = i + 1;
    }
    i
}

impl CommandToken {
    /// The text that the token covers in `command`; empty where the range does not fall on
    /// character boundaries.
    pub fn as_str<'a>(&self, command: &'a str) -> (r: &'a str)
        ensures
            self.from <= self.to && is_char_boundary(command.spec_bytes(), self.from as int)
                && is_char_boundary(command.spec_bytes(), self.to as int) ==> r.spec_bytes()
                == command.spec_bytes().subrange(self.from as int, self.to as int),
            !(self.from <= self.to && is_char_boundary(command.spec_bytes(), self.from as int)
                && is_char_boundary(command.spec_bytes(), self.to as int)) ==> r@.len() == 0,
            r@ == token_chars(command, *self),
    {
        if self.from <= self.to && command.is_char_boundary(self.from)
            && command.is_char_boundary(self.to) {
            let ghost bytes = command.spec_bytes();
            proof {
                broadcast use encode_utf8_valid_utf8, valid_utf8_split;
                lemma_boundary_in_tail(bytes, self.from as int, self.to as int);
            }
            let (_, tail) = command.split_at(self.from);
            let (middle, _) = tail.split_at(self.to - self.from);
            proof {
                broadcast use encode_utf8_decode_utf8;
                assert(middle.spec_bytes() =~= bytes.subrange(self.from as int, self.to as int));
                assert(decode_utf8(encode_utf8(middle@)) == middle@);
            }
            middle
        } else {
            proof {
                reveal_strlit("");
            }
            ""
        }
    }
}

proof fn lemma_boundary_in_tail(bytes: Seq<u8>, from: int, to: int)
    requires
        valid_utf8(bytes),
        0 <= from <= to,
        is_char_boundary(bytes, from),
        is_char_boundary(bytes, to),
    ensures
        is_char_boundary(bytes.subrange(from, bytes.len() as int), to - from),
{
    broadcast use valid_utf8_split, is_char_boundary_start_end_of_seq;
    let tail = bytes.subrange(from, bytes.len() as int);
    assert(to <= bytes.len()) by {
        if to > bytes.len() {
            lemma_boundary_le_len(bytes, to);
        }
    }
    if to == bytes.len() {
        assert(tail.len() == to - from);
    } else {
        is_char_boundary_iff_not_is_continuation_byte(bytes, to);
        is_char_boundary_iff_not_is_continuation_byte(tail, to - from);
        assert(tail[to - from] == bytes[to]);
    }
}

proof fn lemma_boundary_le_len(bytes: Seq<u8>, index: int)
    requires
        valid_utf8(bytes),
        is_char_boundary(bytes, index),
    ensures
        index <= bytes.len(),
    decreases bytes.len(),
{
    if index != 0 && bytes.len() > 0 {
        if index >= 0 && index <= bytes.len() {
        } else {
            reveal_with_fuel(is_char_boundary, 2);
            lemma_boundary_le_len(pop_first_scalar(bytes), index - length_of_first_scalar(bytes));
        }
    }
}

/// The characters that a token covers in `command`; empty where its range does not fall on
/// character boundaries.
pub open spec fn token_chars(command: &str, t: CommandToken) -> Seq<char> {
    if t.from <= t.to && is_char_boundary(command.spec_bytes(), t.from as int) && is_char_boundary(
        command.spec_bytes(),
        t.to as int,
    ) {
        decode_utf8(command.spec_bytes().subrange(t.from as int, t.to as int))
    } else {
        Seq::empty()
    }
}

/// Whether two strings hold the same text.
pub fn str_eq(a: &str, b: &str) -> (r: bool)
    ensures
        r == (a@ == b@),
{
    let x = a.as_bytes();
    let y = b.as_bytes();
    proof {
        broadcast use encode_utf8_decode_utf8;
        assert(decode_utf8(encode_utf8(a@)) == a@);
        assert(decode_utf8(encode_utf8(b@)) == b@);
    }
    if x.len() != y.len() {
        return false;
    }
    let mut i: usize = 0;
    while i < x.len()
        invariant
            x@ == a.spec_bytes(),
            y@ == b.spec_bytes(),
            x@.len() == y@.len(),
            i <= x@.len(),
            forall|k: int| 0 <= k < i ==> x@[k] == y@[k],
        decreases x@.len() - i,
    {
        if x[i] != y[i] {
            return false;
        }
        i = i + 1;
    }
    proof {
        assert(x@ =~= y@);
    }
    true
}

/// In UTF-8, the byte after an ASCII character starts a character (or ends the text).
pub proof fn lemma_ascii_next_boundary(bytes: Seq<u8>, k: int)
    requires
        valid_utf8(bytes),
        0 <= k < bytes.len(),
        bytes[k] <= 0x7fu8,
        is_char_boundary(bytes, k),
    ensures
        is_char_boundary(bytes, k + 1),
    decreases bytes.len(),
{
    reveal_with_fuel(is_char_boundary, 2);
    if k == 0 {
        assert(length_of_first_scalar(bytes) == 1);
        assert(is_char_boundary(pop_first_scalar(bytes), 0));
    } else {
        let len = length_of_first_scalar(bytes);
        let tail = pop_first_scalar(bytes);
        assert(is_char_boundary(tail, k - len));
        if k - len < 0 {
            assert(false);
        }
        assert(tail[k - len] == bytes[k]);
        lemma_ascii_next_boundary(tail, k - len);
    }
}

/// A position holding an ASCII character starts a character.
pub proof fn lemma_ascii_is_boundary(bytes: Seq<u8>, k: int)
    requires
        valid_utf8(bytes),
        0 <= k < bytes.len(),
        bytes[k] <= 0x7fu8,
    ensures
        is_char_boundary(bytes, k),
{
    is_char_boundary_iff_not_is_continuation_byte(bytes, k);
}

proof fn lemma_skip_blank_boundary(s: Seq<u8>, p: int)
    requires
        valid_utf8(s),
        0 <= p <= s.len(),
        is_char_boundary(s, p),
    ensures
        is_char_boundary(s, skip_blank(s, p)),
    decreases s.len() - p,
{
    if 0 <= p < s.len() && is_ascii_ws(s[p]) {
        lemma_ascii_next_boundary(s, p);
        lemma_skip_blank_boundary(s, p + 1);
    } else if 0 <= p && p + 1 < s.len() && s[p] == 0x5cu8 && s[p + 1] == 0x0au8 {
        lemma_ascii_next_boundary(s, p);
        lemma_ascii_next_boundary(s, p + 1);
        lemma_skip_blank_boundary(s, p + 2);
    }
}

proof fn lemma_boundary_index_boundary(s: Seq<u8>, p: int)
    requires
        valid_utf8(s),
        0 <= p <= s.len(),
    ensures
        is_char_boundary(s, boundary_index(s, p)),
{
    broadcast use is_char_boundary_start_end_of_seq;
    lemma_boundary_index_bounds(s, p);
    if boundary_index(s, p) < s.len() {
        lemma_ascii_is_boundary(s, boundary_index(s, p));
    }
}

/// Tokens, and where scanning resumes, fall on character boundaries when scanning starts on
/// one: a token's range is always whole characters.
pub proof fn lemma_token_boundaries(s: Seq<u8>, p: int)
    requires
        valid_utf8(s),
        0 <= p <= s.len(),
        is_char_boundary(s, p),
    ensures
        token_at(s, p) matches Some(t) ==> is_char_boundary(s, t.1) && is_char_boundary(s, t.2)
            && is_char_boundary(s, t.3),
{
    broadcast use is_char_boundary_start_end_of_seq;
    lemma_skip_blank_bounds(s, p);
    lemma_skip_blank_boundary(s, p);
    let q = skip_blank(s, p);
    if q < s.len() {
        lemma_token_offsets(s, p);
        if s[q] == 0x22u8 || s[q] == 0x27u8 || s[q] == 0x7bu8 || s[q] == 0x3du8 {
            lemma_ascii_next_boundary(s, q);
        }
        lemma_byte_index_bounds(s, q + 1, s[q]);
        match byte_index(s, q + 1, s[q]) {
            Some(i) => {
                if s[q] == 0x22u8 || s[q] == 0x27u8 {
                    lemma_ascii_is_boundary(s, i);
                    lemma_ascii_next_boundary(s, i);
                }
            },
            None => {},
        }
        lemma_balanced_end_bounds(s, q + 1, 1, 0x7bu8, 0x7du8);
        match balanced_end(s, q + 1, 1, 0x7bu8, 0x7du8) {
            Some(i) => {
                lemma_ascii_is_boundary(s, i);
                lemma_ascii_next_boundary(s, i);
            },
            None => {},
        }
        if q + 1 <= s.len() {
            lemma_boundary_index_boundary(s, q + 1);
        }
    }
}

/// Splits one command into tokens, lazily.
pub struct CommandTokenIter<'a> {
    pub text: &'a str,
    pub pos: usize,
}

impl<'a> CommandTokenIter<'a> {
    pub fn new(command: &'a str) -> (r: Self)
        ensures
            r.text == command,
            r.pos == 0,
    {
        CommandTokenIter { text: command, pos: 0 }
    }

    /// The next token, with its kind; `None` once only whitespace remains.
    pub fn next(&mut self) -> (r: Option<(CommandTokenKind, CommandToken)>)
        ensures
            final(self).text == old(self).text,
            old(self).pos <= old(self).text.spec_bytes().len() ==> match token_at(
                old(self).text.spec_bytes(),
                old(self).pos as int,
            ) {
                Some(t) => r == Some(token_of(t)) && final(self).pos == t.3,
                None => r is None && final(self).pos == old(self).pos,
            },
            old(self).pos > old(self).text.spec_bytes().len() ==> r is None && final(self).pos
                == old(self).pos,
            old(self).pos <= final(self).pos <= old(self).text.spec_bytes().len() || final(self).pos == old(self).pos,
            is_char_boundary(old(self).text.spec_bytes(), old(self).pos as int) ==> is_char_boundary(
                final(self).text.spec_bytes(),
                final(self).pos as int,
            ) && (r matches Some((_, t)) ==> token_chars(old(self).text, t) == decode_utf8(
                old(self).text.spec_bytes().subrange(t.from as int, t.to as int),
            )),
    {
        proof {
            broadcast use encode_utf8_valid_utf8;
            if self.pos <= self.text.spec_bytes().len() && is_char_boundary(self.text.spec_bytes(), self.pos as int) {
                lemma_token_boundaries(self.text.spec_bytes(), self.pos as int);
                lemma_token_offsets(self.text.spec_bytes(), self.pos as int);
            }
        }
        let bytes = self.text.as_bytes();
        let len = bytes.len();
        if self.pos > len {
            return None;
        }
        let ghost s = bytes@;
        let q = skip_blank_exec(bytes, self.pos);
        if q >= len {
            return None;
        }
        let b = bytes[q];
        if b == 0x22u8 || b == 0x27u8 {
            match byte_index_exec(bytes, q + 1, b) {
                Some(i) => {
                    proof {
                        lemma_byte_index_bounds(s, q + 1, b);
                    }
                    self.pos = i + 1;
                    Some((CommandTokenKind::Text, CommandToken { from: q + 1, to: i }))
                },
                None => {
                    self.pos = len;
                    Some((CommandTokenKind::Unterminated, CommandToken { from: q + 1, to: len }))
                },
            }
        } else if b == 0x7bu8 {
            let rest = slice_subrange(bytes, q + 1, len);
            let found = find_balanced(rest, 0x7bu8, 0x7du8);
            proof {
                lemma_balanced_end_shift(s, q + 1, 1);
                lemma_balanced_end_bounds(rest@, 0, 1, 0x7bu8, 0x7du8);
            }
            match found {
                Some(i) => {
                    self.pos = q + 1 + i + 1;
                    Some((CommandTokenKind::Text, CommandToken { from: q + 1, to: q + 1 + i }))
                },
                None => {
                    self.pos = len;
                    Some((CommandTokenKind::Unterminated, CommandToken { from: q + 1, to: len }))
                },
            }
        } else if b == 0x2du8 {
            let e = boundary_index_exec(bytes, q + 1);
            proof {
                lemma_boundary_index_bounds(s, q + 1);
            }
            self.pos = e;
            Some((CommandTokenKind::Flag, CommandToken { from: q, to: e }))
        } else if b == 0x3du8 {
            self.pos = q + 1;
            Some((CommandTokenKind::Equals, CommandToken { from: q, to: q + 1 }))
        } else {
            let e = boundary_index_exec(bytes, q + 1);
            proof {
                lemma_boundary_index_bounds(s, q + 1);
            }
            self.pos = e;
            Some((CommandTokenKind::Text, CommandToken { from: q, to: e }))
        }
    }
}

/// Scanning a suffix for a balanced group finds the same byte, shifted.
pub proof fn lemma_balanced_end_shift(s: Seq<u8>, p: int, depth: int)
    requires
        0 <= p <= s.len(),
    ensures
        match balanced_end(s.subrange(p, s.len() as int), 0, depth, 0x7bu8, 0x7du8) {
            Some(i) => balanced_end(s, p, depth, 0x7bu8, 0x7du8) == Some(i + p),
            None => balanced_end(s, p, depth, 0x7bu8, 0x7du8) is None,
        },
{
    lemma_balanced_end_suffix(s, p, 0, depth);
}

proof fn lemma_balanced_end_suffix(s: Seq<u8>, p: int, k: int, depth: int)
    requires
        0 <= p <= s.len(),
        0 <= k,
    ensures
        match balanced_end(s.subrange(p, s.len() as int), k, depth, 0x7bu8, 0x7du8) {
            Some(i) => balanced_end(s, p + k, depth, 0x7bu8, 0x7du8) == Some(i + p),
            None => balanced_end(s, p + k, depth, 0x7bu8, 0x7du8) is None,
        },
    decreases s.len() - p - k,
{
    let t = s.subrange(p, s.len() as int);
    if k < t.len() {
        assert(t[k] == s[p + k]);
        lemma_balanced_end_suffix(s, p, k + 1, depth + 1);
        lemma_balanced_end_suffix(s, p, k + 1, depth - 1);
        lemma_balanced_end_suffix(s, p, k + 1, depth);
    }
}

/// Every token lies inside the text, after the position scanning began, and its range is
/// exactly its logical text: a quoted token is the bytes between the quotes, none of them the
/// quote; a braced token is the interior of a balanced group; a flag starts with `-`, and it
/// and plain text run up to the next boundary byte; `=` stands alone.
pub proof fn lemma_token_offsets(s: Seq<u8>, p: int)
    requires
        0 <= p <= s.len(),
    ensures
        match token_at(s, p) {
            Some(t) => {
                let (kind, from, to, next) = t;
                &&& p <= from <= to <= next <= s.len()
                &&& p < next
                &&& kind == CommandTokenKind::Equals ==> to == from + 1 && s[from] == 0x3du8
                &&& kind == CommandTokenKind::Flag ==> from < to && s[from] == 0x2du8 && (forall|k: int|
                    from < k < to ==> !is_token_boundary(#[trigger] s[k]))
                &&& kind == CommandTokenKind::Text && from > p && (s[from - 1] == 0x22u8 || s[from
                    - 1] == 0x27u8) ==> to < s.len() && s[to] == s[from - 1] && (forall|k: int|
                    from <= k < to ==> #[trigger] s[k] != s[from - 1])
                &&& kind == CommandTokenKind::Text && from > p && s[from - 1] == 0x7bu8 ==> to
                    < s.len() && s[to] == 0x7du8 && balanced_end(s, from, 1, 0x7bu8, 0x7du8)
                    == Some(to)
                &&& kind == CommandTokenKind::Text && !(from > p && (s[from - 1] == 0x22u8 || s[from
                    - 1] == 0x27u8 || s[from - 1] == 0x7bu8)) ==> from < to && (forall|k: int|
                    from <= k < to ==> !is_token_boundary(#[trigger] s[k]))
                &&& kind == CommandTokenKind::Unterminated ==> to == s.len() && next == s.len()
                    && from > p
            },
            None => forall|k: int| p <= k < s.len() ==> is_ascii_ws(#[trigger] s[k]) || s[k] == 0x5cu8 || s[k] == 0x0au8,
        },
{
    lemma_skip_blank_bounds(s, p);
    lemma_skip_blank_all_blank(s, p);
    let q = skip_blank(s, p);
    if q < s.len() {
        lemma_skip_blank_stops(s, p);
        lemma_byte_index_bounds(s, q + 1, s[q]);
        lemma_balanced_end_bounds(s, q + 1, 1, 0x7bu8, 0x7du8);
        lemma_boundary_index_bounds(s, q + 1);
    }
}

proof fn lemma_skip_blank_stops(s: Seq<u8>, p: int)
    requires
        0 <= p,
        skip_blank(s, p) < s.len(),
    ensures
        !is_ascii_ws(s[skip_blank(s, p)]),
    decreases s.len() - p,
{
    if 0 <= p < s.len() && is_ascii_ws(s[p]) {
        lemma_skip_blank_stops(s, p + 1);
    } else if 0 <= p && p + 1 < s.len() && s[p] == 0x5cu8 && s[p + 1] == 0x0au8 {
        lemma_skip_blank_stops(s, p + 2);
    }
}

proof fn lemma_skip_blank_all_blank(s: Seq<u8>, p: int)
    requires
        0 <= p,
    ensures
        forall|k: int| p <= k < skip_blank(s, p) && k < s.len() ==> is_ascii_ws(#[trigger] s[k]) || s[k] == 0x5cu8 || s[k] == 0x0au8,
    decreases s.len() - p,
{
    if 0 <= p < s.len() && is_ascii_ws(s[p]) {
        lemma_skip_blank_all_blank(s, p + 1);
    } else if 0 <= p && p + 1 < s.len() && s[p] == 0x5cu8 && s[p + 1] == 0x0au8 {
        lemma_skip_blank_all_blank(s, p + 2);
    }
}

} // verus!
