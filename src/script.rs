use vstd::prelude::*;
use vstd::string::*;
use vstd::utf8::*;

use crate::token::{balanced_end, find_balanced, is_ascii_ws, is_ws_byte, CommandToken};

verus! {

/// First index at or after `p` that is not ASCII whitespace.
pub open spec fn skip_ws(s: Seq<u8>, p: int) -> int
    decreases s.len() - p,
{
    if 0 <= p < s.len() && is_ascii_ws(s[p]) {
        skip_ws(s, p + 1)
    } else {
        p
    }
}

/// Index of the first newline at or after `p`, or the length.
pub open spec fn line_end(s: Seq<u8>, p: int) -> int
    decreases s.len() - p,
{
    if p < 0 || p >= s.len() {
        s.len() as int
    } else if s[p] == 0x0au8 {
        p
    } else {
        line_end(s, p + 1)
    }
}

/// Scanning a command from byte `i` on: where the command ends and where scanning resumes.
/// A newline, `;` or `#` ends a command; a balanced `{ }` group never does, and a `\` right
/// before a newline continues the command on the next line.
pub open spec fn scan_command(s: Seq<u8>, i: int) -> (int, int)
    decreases s.len() - i,
{
    if i < 0 || i >= s.len() {
        (s.len() as int, s.len() as int)
    } else if s[i] == 0x0au8 {
        (i, i)
    } else if s[i] == 0x3bu8 {
        (i, i + 1)
    } else if s[i] == 0x23u8 {
        (i, line_end(s, i))
    } else if s[i] == 0x7bu8 {
        match balanced_end(s, i + 1, 1, 0x7bu8, 0x7du8) {
            Some(e) => if i < e + 1 <= s.len() {
                scan_command(s, e + 1)
            } else {
                (s.len() as int, s.len() as int)
            },
            None => (s.len() as int, s.len() as int),
        }
    } else if s[i] == 0x5cu8 && i + 1 < s.len() && s[i + 1] == 0x0au8 {
        scan_command(s, i + 2)
    } else {
        scan_command(s, i + 1)
    }
}

/// The next non-empty command at or after `p`: its byte range and where scanning resumes.
pub open spec fn next_command(s: Seq<u8>, p: int) -> Option<(int, int, int)>
    decreases s.len() - p,
{
    let q = skip_ws(s, p);
    if q < 0 || q >= s.len() {
        None
    } else {
        let (e, n) = scan_command(s, q);
        if e > q {
            Some((q, e, n))
        } else if p < n <= s.len() {
            next_command(s, n)
        } else {
            None
        }
    }
}

/// The byte ranges of all commands of a script, from position `p` on.
pub open spec fn commands_from(s: Seq<u8>, p: int) -> Seq<(int, int)>
    decreases s.len() - p,
{
    match next_command(s, p) {
        Some(c) => if p < c.2 <= s.len() {
            seq![(c.0, c.1)] + commands_from(s, c.2)
        } else {
            seq![(c.0, c.1)]
        },
        None => Seq::empty(),
    }
}

pub proof fn lemma_skip_ws_bounds(s: Seq<u8>, p: int)
    requires
        0 <= p <= s.len(),
    ensures
        p <= skip_ws(s, p) <= s.len(),
        skip_ws(s, p) < s.len() ==> !is_ascii_ws(s[skip_ws(s, p)]),
    decreases s.len() - p,
{
    if p < s.len() && is_ascii_ws(s[p]) {
        lemma_skip_ws_bounds(s, p + 1);
    }
}

pub proof fn lemma_line_end_bounds(s: Seq<u8>, p: int)
    requires
        0 <= p <= s.len(),
    ensures
        p <= line_end(s, p) <= s.len(),
    decreases s.len() - p,
{
    if p < s.len() && s[p] != 0x0au8 {
        lemma_line_end_bounds(s, p + 1);
    }
}

pub proof fn lemma_scan_command_bounds(s: Seq<u8>, i: int)
    requires
        0 <= i <= s.len(),
    ensures
        i <= scan_command(s, i).0 <= scan_command(s, i).1 <= s.len(),
        scan_command(s, i).0 < s.len() ==> {
            let e = scan_command(s, i).0;
            s[e] == 0x0au8 || s[e] == 0x3bu8 || s[e] == 0x23u8
        },
    decreases s.len() - i,
{
    if i < s.len() {
        if s[i] == 0x23u8 {
            lemma_line_end_bounds(s, i);
        } else if s[i] == 0x7bu8 {
            crate::token::lemma_balanced_end_bounds(s, i + 1, 1, 0x7bu8, 0x7du8);
            match balanced_end(s, i + 1, 1, 0x7bu8, 0x7du8) {
                Some(e) => lemma_scan_command_bounds(s, e + 1),
                None => {},
            }
        } else if s[i] == 0x5cu8 && i + 1 < s.len() && s[i + 1] == 0x0au8 {
            lemma_scan_command_bounds(s, i + 2);
        } else if s[i] != 0x0au8 && s[i] != 0x3bu8 {
            lemma_scan_command_bounds(s, i + 1);
        }
    }
}

pub proof fn lemma_next_command_bounds(s: Seq<u8>, p: int)
    requires
        0 <= p <= s.len(),
    ensures
        match next_command(s, p) {
            Some(c) => p <= c.0 < c.1 <= c.2 <= s.len() && p < c.2,
            None => true,
        },
    decreases s.len() - p,
{
    lemma_skip_ws_bounds(s, p);
    let q = skip_ws(s, p);
    if q < s.len() {
        lemma_scan_command_bounds(s, q);
        let (e, n) = scan_command(s, q);
        if e <= q && n > p {
            lemma_next_command_bounds(s, n);
        }
    }
}

proof fn lemma_skip_ws_boundary(s: Seq<u8>, p: int)
    requires
        valid_utf8(s),
        0 <= p <= s.len(),
        is_char_boundary(s, p),
    ensures
        is_char_boundary(s, skip_ws(s, p)),
    decreases s.len() - p,
{
    if p < s.len() && is_ascii_ws(s[p]) {
        crate::token::lemma_ascii_next_boundary(s, p);
        lemma_skip_ws_boundary(s, p + 1);
    }
}

proof fn lemma_line_end_boundary(s: Seq<u8>, p: int)
    requires
        valid_utf8(s),
        0 <= p <= s.len(),
    ensures
        is_char_boundary(s, line_end(s, p)),
    decreases s.len() - p,
{
    broadcast use is_char_boundary_start_end_of_seq;
    if p < s.len() {
        if s[p] == 0x0au8 {
            crate::token::lemma_ascii_is_boundary(s, p);
        } else {
            lemma_line_end_boundary(s, p + 1);
        }
    }
}

proof fn lemma_scan_command_boundaries(s: Seq<u8>, i: int)
    requires
        valid_utf8(s),
        0 <= i <= s.len(),
    ensures
        is_char_boundary(s, scan_command(s, i).0),
        is_char_boundary(s, scan_command(s, i).1),
    decreases s.len() - i,
{
    broadcast use is_char_boundary_start_end_of_seq;
    if i < s.len() {
        if s[i] == 0x0au8 {
            crate::token::lemma_ascii_is_boundary(s, i);
        } else if s[i] == 0x3bu8 {
            crate::token::lemma_ascii_is_boundary(s, i);
            crate::token::lemma_ascii_next_boundary(s, i);
        } else if s[i] == 0x23u8 {
            crate::token::lemma_ascii_is_boundary(s, i);
            lemma_line_end_boundary(s, i);
        } else if s[i] == 0x7bu8 {
            match balanced_end(s, i + 1, 1, 0x7bu8, 0x7du8) {
                Some(e) => if i < e + 1 <= s.len() {
                    lemma_scan_command_boundaries(s, e + 1);
                },
                None => {},
            }
        } else if s[i] == 0x5cu8 && i + 1 < s.len() && s[i + 1] == 0x0au8 {
            lemma_scan_command_boundaries(s, i + 2);
        } else {
            lemma_scan_command_boundaries(s, i + 1);
        }
    }
}

/// Each command of a script, and where scanning resumes, falls on character boundaries when
/// scanning starts on one.
pub proof fn lemma_next_command_boundaries(s: Seq<u8>, p: int)
    requires
        valid_utf8(s),
        0 <= p <= s.len(),
        is_char_boundary(s, p),
    ensures
        next_command(s, p) matches Some(c) ==> is_char_boundary(s, c.0) && is_char_boundary(s, c.1)
            && is_char_boundary(s, c.2),
    decreases s.len() - p,
{
    lemma_skip_ws_bounds(s, p);
    lemma_skip_ws_boundary(s, p);
    let q = skip_ws(s, p);
    if q < s.len() {
        lemma_scan_command_bounds(s, q);
        lemma_scan_command_boundaries(s, q);
        let (e, n) = scan_command(s, q);
        if e <= q && p < n <= s.len() {
            lemma_next_command_boundaries(s, n);
        }
    }
}

/// Splits a script into its commands, lazily.
pub struct CommandIter<'a> {
    pub text: &'a str,
    pub pos: usize,
}

impl<'a> CommandIter<'a> {
    pub fn new(commands: &'a str) -> (r: Self)
        ensures
            r.text == commands,
            r.pos == 0,
    {
        CommandIter { text: commands, pos: 0 }
    }

    /// The byte range of the next non-empty command, or `None` once the script is used up.
    pub fn next_range(&mut self) -> (r: Option<CommandToken>)
        ensures
            final(self).text == old(self).text,
            old(self).pos <= old(self).text.spec_bytes().len() ==> match next_command(
                old(self).text.spec_bytes(),
                old(self).pos as int,
            ) {
                Some(c) => r == Some(CommandToken { from: c.0 as usize, to: c.1 as usize })
                    && final(self).pos == c.2,
                None => r is None && final(self).pos == old(self).text.spec_bytes().len(),
            },
            old(self).pos > old(self).text.spec_bytes().len() ==> r is None && final(self).pos
                == old(self).pos,
    {
        let bytes = self.text.as_bytes();
        let len = bytes.len();
        if self.pos > len {
            return None;
        }
        let ghost s = bytes@;
        let mut p = self.pos;
        loop
            invariant
                bytes@ == s,
                s == self.text.spec_bytes(),
                len == s.len(),
                old(self).pos <= p <= len,
                self.text == old(self).text,
                next_command(s, old(self).pos as int) == next_command(s, p as int),
            decreases len - p,
        {
            let mut q = p;
            while q < len && is_ws_byte(bytes[q])
                invariant
                    bytes@ == s,
                    len == s.len(),
                    p <= q <= len,
                    skip_ws(s, p as int) == skip_ws(s, q as int),
                decreases len - q,
            {
                q = q + 1;
            }
            proof {
                if q < len {
                    assert(!is_ascii_ws(s[q as int]));
                }
                assert(skip_ws(s, q as int) == q as int);
                assert(skip_ws(s, p as int) == q as int);
            }
            if q >= len {
                self.pos = len;
                return None;
            }
            let (e, n) = scan_command_exec(bytes, q);
            proof {
                lemma_scan_command_bounds(s, q as int);
            }
            if e > q {
                self.pos = n;
                return Some(CommandToken { from: q, to: e });
            }
            if n <= p {
                self.pos = len;
                return None;
            }
            p = n;
        }
    }

    /// The next non-empty command, or `None` once the script is used up.
    pub fn next(&mut self) -> (r: Option<&'a str>)
        ensures
            final(self).text == old(self).text,
            old(self).pos <= old(self).text.spec_bytes().len() ==> match next_command(
                old(self).text.spec_bytes(),
                old(self).pos as int,
            ) {
                Some(c) => r is Some && final(self).pos == c.2 && (is_char_boundary(
                    old(self).text.spec_bytes(),
                    old(self).pos as int,
                ) ==> r->0.spec_bytes() == old(self).text.spec_bytes().subrange(c.0, c.1)
                    && is_char_boundary(old(self).text.spec_bytes(), final(self).pos as int)),
                None => r is None && final(self).pos == old(self).text.spec_bytes().len(),
            },
            old(self).pos > old(self).text.spec_bytes().len() ==> r is None && final(self).pos
                == old(self).pos,
    {
        proof {
            broadcast use encode_utf8_valid_utf8;
            if old(self).pos <= old(self).text.spec_bytes().len() {
                lemma_next_command_bounds(old(self).text.spec_bytes(), old(self).pos as int);
                if is_char_boundary(old(self).text.spec_bytes(), old(self).pos as int) {
                    lemma_next_command_boundaries(old(self).text.spec_bytes(), old(self).pos as int);
                }
            }
        }
        match self.next_range() {
            Some(token) => Some(token.as_str(self.text)),
            None => None,
        }
    }
}

/// The commands of a script, as text, in order.
pub open spec fn script_commands(s: Seq<u8>) -> Seq<Seq<char>> {
    commands_from(s, 0).map_values(|c: (int, int)| decode_utf8(s.subrange(c.0, c.1)))
}

/// `it` has yielded the first `k` commands of its script and is ready for the next.
pub open spec fn yielded(it: CommandIter, k: int) -> bool {
    let s = it.text.spec_bytes();
    &&& it.pos <= s.len()
    &&& is_char_boundary(s, it.pos as int)
    &&& 0 <= k <= commands_from(s, 0).len()
    &&& commands_from(s, it.pos as int) == commands_from(s, 0).subrange(k, commands_from(s, 0).len() as int)
}

pub proof fn lemma_yielded_start(it: CommandIter)
    requires
        it.pos == 0,
    ensures
        yielded(it, 0),
{
    broadcast use encode_utf8_valid_utf8;
    let s = it.text.spec_bytes();
    assert(valid_utf8(s));
    assert(is_char_boundary(s, 0));
    assert(commands_from(s, 0).subrange(0, commands_from(s, 0).len() as int) =~= commands_from(s, 0));
}

impl<'a> CommandIter<'a> {
    /// The next command, knowing how many came before: it is the `k`-th of the script.
    pub(crate) fn next_counted(&mut self, Ghost(k): Ghost<int>) -> (r: Option<&'a str>)
        requires
            yielded(*old(self), k),
        ensures
            final(self).text == old(self).text,
            match r {
                Some(c) => k < script_commands(old(self).text.spec_bytes()).len() && c@ == script_commands(
                    old(self).text.spec_bytes(),
                )[k] && yielded(*final(self), k + 1),
                None => k == script_commands(old(self).text.spec_bytes()).len(),
            },
    {
        let ghost s = self.text.spec_bytes();
        let ghost p = self.pos as int;
        let ghost all = commands_from(s, 0);
        proof {
            lemma_next_command_bounds(s, p);
        }
        let r = self.next();
        proof {
            broadcast use encode_utf8_decode_utf8;
            match next_command(s, p) {
                Some(c) => {
                    assert(commands_from(s, p) == seq![(c.0, c.1)] + commands_from(s, c.2));
                    assert(all.subrange(k, all.len() as int)[0] == (c.0, c.1));
                    assert(all[k] == (c.0, c.1));
                    let sub = all.subrange(k, all.len() as int);
                    let tail = commands_from(s, c.2);
                    assert(sub.len() == 1 + tail.len());
                    assert forall|j: int| 0 <= j < tail.len() implies tail[j] == all[k + 1 + j] by {
                        assert(sub[j + 1] == tail[j]);
                    }
                    assert(tail =~= all.subrange(k + 1, all.len() as int));
                    let t = r->0;
                    encode_utf8_decode_utf8(t@);
                },
                None => {
                    assert(commands_from(s, p).len() == 0);
                },
            }
        }
        r
    }
}

pub open spec fn range_pair(t: CommandToken) -> (int, int) {
    (t.from as int, t.to as int)
}

pub open spec fn ranges_of(ts: Seq<CommandToken>) -> Seq<(int, int)> {
    ts.map_values(|t: CommandToken| range_pair(t))
}

/// The byte ranges of all commands of `script`, in order.
pub fn command_ranges(script: &str) -> (r: Vec<CommandToken>)
    ensures
        ranges_of(r@) == commands_from(script.spec_bytes(), 0),
{
    let mut iter = CommandIter::new(script);
    let mut out: Vec<CommandToken> = Vec::new();
    let ghost s = script.spec_bytes();
    loop
        invariant
            iter.text == script,
            iter.text.spec_bytes() == s,
            iter.pos <= s.len(),
            ranges_of(out@) + commands_from(s, iter.pos as int)
                == commands_from(s, 0),
        decreases s.len() - iter.pos,
    {
        let ghost before = iter.pos as int;
        proof {
            lemma_next_command_bounds(s, before);
        }
        match iter.next_range() {
            Some(t) => {
                proof {
                    assert(iter.text.spec_bytes() == s);
                    assert(next_command(s, before) is Some);
                    let c = next_command(s, before)->0;
                    assert(range_pair(t) == (c.0, c.1));
                    assert(iter.pos == c.2);
                    let tail = commands_from(s, iter.pos as int);
                    assert(commands_from(s, before) == seq![range_pair(t)] + tail);
                    assert(ranges_of(out@.push(t)) =~= out@.map_values(
                        |t: CommandToken| range_pair(t),
                    ).push(range_pair(t)));
                    assert(ranges_of(out@).push(range_pair(t)) + tail
                        =~= ranges_of(out@) + (seq![range_pair(t)]
                        + tail));
                }
                out.push(t);
            },
            None => {
                proof {
                    assert(commands_from(s, before) =~= Seq::<(int, int)>::empty());
                    assert(ranges_of(out@) + Seq::<(int, int)>::empty()
                        =~= ranges_of(out@));
                }
                return out;
            },
        }
    }
}

/// A script that is one balanced brace group, newlines, `;` and `#` inside it included, is
/// exactly one command, unchanged.
pub proof fn lemma_brace_group_one_command(s: Seq<u8>)
    requires
        s.len() >= 2,
        s[0] == 0x7bu8,
        balanced_end(s, 1, 1, 0x7bu8, 0x7du8) == Some(s.len() - 1),
    ensures
        commands_from(s, 0) == seq![(0int, s.len() as int)],
{
    assert(skip_ws(s, 0) == 0);
    assert(scan_command(s, s.len() as int) == (s.len() as int, s.len() as int));
    assert(scan_command(s, 0) == (s.len() as int, s.len() as int));
    assert(next_command(s, 0) == Some((0int, s.len() as int, s.len() as int)));
    assert(skip_ws(s, s.len() as int) == s.len());
    assert(next_command(s, s.len() as int) is None);
    assert(commands_from(s, s.len() as int) =~= Seq::<(int, int)>::empty());
    assert(commands_from(s, 0) =~= seq![(0int, s.len() as int)] + Seq::<(int, int)>::empty());
}

/// Splitting a script is repeatable: two complete iterations over the same script yield the
/// same commands.
pub proof fn lemma_iteration_repeatable(script: &str, first: Seq<CommandToken>, second: Seq<CommandToken>)
    requires
        ranges_of(first) == commands_from(script.spec_bytes(), 0),
        ranges_of(second) == commands_from(script.spec_bytes(), 0),
    ensures
        first == second,
{
    assert(first.len() == ranges_of(first).len());
    assert(second.len() == ranges_of(second).len());
    assert forall|i: int| 0 <= i < first.len() implies first[i] == second[i] by {
        assert(ranges_of(first)[i] == range_pair(first[i]));
        assert(ranges_of(second)[i] == range_pair(second[i]));
    }
    assert(first =~= second);
}

fn scan_command_exec(bytes: &[u8], start: usize) -> (r: (usize, usize))
    requires
        start <= bytes@.len(),
    ensures
        r.0 as int == scan_command(bytes@, start as int).0,
        r.1 as int == scan_command(bytes@, start as int).1,
{
    let len = bytes.len();
    let mut i = start;
    while i < len
        invariant
            len == bytes@.len(),
            start <= i <= len,
            scan_command(bytes@, start as int) == scan_command(bytes@, i as int),
        decreases len - i,
    {
        let b = bytes[i];
        if b == 0x0au8 {
            return (i, i);
        } else if b == 0x3bu8 {
            return (i, i + 1);
        } else if b == 0x23u8 {
            let mut j = i;
            while j < len && bytes[j] != 0x0au8
                invariant
                    i <= j <= len,
                    len == bytes@.len(),
                    line_end(bytes@, i as int) == line_end(bytes@, j as int),
                decreases len - j,
            {
                j = j + 1;
            }
            return (i, j);
        } else if b == 0x7bu8 {
            let rest = vstd::slice::slice_subrange(bytes, i + 1, len);
            proof {
                crate::token::lemma_balanced_end_shift(bytes@, i + 1, 1);
                crate::token::lemma_balanced_end_bounds(rest@, 0, 1, 0x7bu8, 0x7du8);
            }
            match find_balanced(rest, 0x7bu8, 0x7du8) {
                Some(k) => {
                    i = i + 1 + k + 1;
                },
                None => {
                    return (len, len);
                },
            }
        } else if b == 0x5cu8 && i + 1 < len && bytes[i + 1] == 0x0au8 {
            i = i + 2;
        } else {
            i = i + 1;
        }
    }
    (len, len)
}

} // verus!
