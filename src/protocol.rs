use vstd::prelude::*;

verus! {

/// Identifies a request to a language server; zero marks a free slot.
#[derive(Clone, Copy, Default, PartialEq, Eq, Structural, Debug)]
pub struct RequestId(pub usize);

pub struct ResponseError {
    pub code: i64,
    pub message: &'static str,
}

impl ResponseError {
    pub fn parse_error() -> (r: Self)
        ensures
            r.code == -32700,
            r.message@ == "ParseError"@,
    {
        ResponseError { code: -32700, message: "ParseError" }
    }

    pub fn method_not_found() -> (r: Self)
        ensures
            r.code == -32601,
            r.message@ == "MethodNotFound"@,
    {
        ResponseError { code: -32601, message: "MethodNotFound" }
    }
}

#[derive(Clone, Copy)]
pub struct PendingRequest {
    pub id: RequestId,
    pub method: &'static str,
}

/// Requests sent and not answered yet, with the method each was for.
pub struct PendingRequestColection {
    pub pending_requests: Vec<PendingRequest>,
}

/// Index of the first slot whose id is `id`.
pub open spec fn slot_of(slots: Seq<PendingRequest>, id: usize) -> Option<int>
    decreases slots.len(),
{
    if slots.len() == 0 {
        None
    } else {
        match slot_of(slots.drop_last(), id) {
            Some(i) => Some(i),
            None => if slots.last().id.0 == id {
                Some(slots.len() - 1)
            } else {
                None
            },
        }
    }
}

proof fn lemma_slot_found(slots: Seq<PendingRequest>, id: usize, i: int)
    requires
        0 <= i < slots.len(),
        slots[i].id.0 == id,
        forall|k: int| 0 <= k < i ==> slots[k].id.0 != id,
    ensures
        slot_of(slots, id) == Some(i),
    decreases slots.len(),
{
    if slots.len() - 1 > i {
        lemma_slot_found(slots.drop_last(), id, i);
    } else {
        lemma_slot_missing(slots.drop_last(), id);
    }
}

proof fn lemma_slot_missing(slots: Seq<PendingRequest>, id: usize)
    requires
        forall|k: int| 0 <= k < slots.len() ==> slots[k].id.0 != id,
    ensures
        slot_of(slots, id) is None,
    decreases slots.len(),
{
    if slots.len() > 0 {
        lemma_slot_missing(slots.drop_last(), id);
    }
}

impl PendingRequestColection {
    pub fn new() -> (r: Self)
        ensures
            r.pending_requests@.len() == 0,
    {
        PendingRequestColection { pending_requests: Vec::new() }
    }

    /// Records a request in the first free slot, or in a new one.
    pub fn add(&mut self, id: RequestId, method: &'static str)
        ensures
            match slot_of(old(self).pending_requests@, 0) {
                Some(i) => final(self).pending_requests@ == old(self).pending_requests@.update(
                    i,
                    PendingRequest { id, method },
                ),
                None => final(self).pending_requests@ == old(self).pending_requests@.push(
                    PendingRequest { id, method },
                ),
            },
    {
        let mut i: usize = 0;
        while i < self.pending_requests.len()
            invariant
                self.pending_requests == old(self).pending_requests,
                i <= self.pending_requests@.len(),
                forall|k: int| 0 <= k < i ==> self.pending_requests@[k].id.0 != 0,
            decreases self.pending_requests@.len() - i,
        {
            if self.pending_requests[i].id.0 == 0 {
                proof {
                    lemma_slot_found(self.pending_requests@, 0, i as int);
                }
                self.pending_requests.set(i, PendingRequest { id, method });
                return;
            }
            i = i + 1;
        }
        proof {
            lemma_slot_missing(self.pending_requests@, 0);
        }
        self.pending_requests.push(PendingRequest { id, method });
    }

    /// The method of request `id`, freeing its slot.
    pub fn take(&mut self, id: RequestId) -> (r: Option<&'static str>)
        ensures
            match slot_of(old(self).pending_requests@, id.0) {
                Some(i) => r == Some(old(self).pending_requests@[i].method)
                    && final(self).pending_requests@ == old(self).pending_requests@.update(
                    i,
                    PendingRequest { id: RequestId(0), method: old(self).pending_requests@[i].method },
                ),
                None => r is None && final(self).pending_requests == old(self).pending_requests,
            },
    {
        let mut i: usize = 0;
        while i < self.pending_requests.len()
            invariant
                self.pending_requests == old(self).pending_requests,
                i <= self.pending_requests@.len(),
                forall|k: int| 0 <= k < i ==> self.pending_requests@[k].id.0 != id.0,
            decreases self.pending_requests@.len() - i,
        {
            if self.pending_requests[i].id.0 == id.0 {
                proof {
                    lemma_slot_found(self.pending_requests@, id.0, i as int);
                }
                let method = self.pending_requests[i].method;
                self.pending_requests.set(i, PendingRequest { id: RequestId(0), method });
                return Some(method);
            }
            i = i + 1;
        }
        proof {
            lemma_slot_missing(self.pending_requests@, id.0);
        }
        None
    }
}

/// Index just past the first occurrence of `pattern` in `buf` at or after `from`.
pub open spec fn pattern_end(buf: Seq<u8>, pattern: Seq<u8>, from: int) -> Option<int>
    decreases buf.len() + 1 - from,
{
    if from < 0 || from + pattern.len() > buf.len() {
        None
    } else if buf.subrange(from, from + pattern.len()) == pattern {
        Some(from + pattern.len())
    } else {
        pattern_end(buf, pattern, from + 1)
    }
}

/// The decimal number at the start of `digits`, up to the first non-digit, saturating.
pub open spec fn leading_number(digits: Seq<u8>, i: int, n: nat) -> nat
    decreases digits.len() - i,
{
    if i < 0 || i >= digits.len() || !(0x30u8 <= digits[i] && digits[i] <= 0x39u8) {
        n
    } else {
        let next = n * 10 + (digits[i] - 0x30u8) as nat;
        leading_number(digits, i + 1, if next > usize::MAX { usize::MAX as nat } else { next })
    }
}

pub open spec fn content_length_key() -> Seq<u8> {
    seq![0x43u8, 0x6fu8, 0x6eu8, 0x74u8, 0x65u8, 0x6eu8, 0x74u8, 0x2du8, 0x4cu8, 0x65u8, 0x6eu8,
        0x67u8, 0x74u8, 0x68u8, 0x3au8, 0x20u8]
}

pub open spec fn header_end() -> Seq<u8> {
    seq![0x0du8, 0x0au8, 0x0du8, 0x0au8]
}

/// Where the content of the message at the start of `buf` lies, as (start, length): after
/// the `Content-Length: ` header and the blank line that ends the headers.
pub open spec fn content_span(buf: Seq<u8>) -> Option<(int, int)> {
    match pattern_end(buf, content_length_key(), 0) {
        None => None,
        Some(cl) => {
            let rest = buf.subrange(cl, buf.len() as int);
            match pattern_end(rest, header_end(), 0) {
                None => None,
                Some(c) => Some((cl + c, leading_number(rest, 0, 0) as int)),
            }
        },
    }
}

fn find_pattern_end(buf: &[u8], pattern: &[u8], from: usize) -> (r: Option<usize>)
    requires
        from <= buf@.len(),
    ensures
        match pattern_end(buf@, pattern@, from as int) {
            Some(e) => r == Some(e as usize),
            None => r is None,
        },
{
    let mut i = from;
    let blen = buf.len();
    while blen - i >= pattern.len()
        invariant
            from <= i <= buf@.len(),
            pattern_end(buf@, pattern@, from as int) == pattern_end(buf@, pattern@, i as int),
            blen == buf@.len(),
        decreases buf@.len() - i,
    {
        let mut k: usize = 0;
        while k < pattern.len() && buf[i + k] == pattern[k]
            invariant
                k <= pattern@.len(),
                blen == buf@.len(),
                i + pattern@.len() <= buf@.len(),
                forall|j: int| 0 <= j < k ==> buf@[i + j] == pattern@[j],
            decreases pattern@.len() - k,
        {
            k = k + 1;
        }
        if k == pattern.len() {
            proof {
                assert(buf@.subrange(i as int, i + pattern@.len()) =~= pattern@);
            }
            return Some(i + pattern.len());
        }
        proof {
            assert(buf@.subrange(i as int, i + pattern@.len())[k as int] != pattern@[k as int]);
        }
        i = i + 1;
    }
    None
}

fn parse_number(digits: &[u8], start: usize) -> (r: usize)
    requires
        start <= digits@.len(),
    ensures
        r == leading_number(digits@, start as int, 0),
{
    let mut n: usize = 0;
    let mut i = start;
    while i < digits.len() && 0x30u8 <= digits[i] && digits[i] <= 0x39u8
        invariant
            start <= i <= digits@.len(),
            leading_number(digits@, start as int, 0) == leading_number(digits@, i as int, n as nat),
        decreases digits@.len() - i,
    {
        let d = (digits[i] - 0x30u8) as usize;
        n = match n.checked_mul(10) {
            Some(m) => match m.checked_add(d) {
                Some(v) => v,
                None => usize::MAX,
            },
            None => usize::MAX,
        };
        i = i + 1;
    }
    n
}

/// Finds the content of the first message in `buf`: its start and its length.
pub fn parse_content_span(buf: &[u8]) -> (r: Option<(usize, usize)>)
    ensures
        match content_span(buf@) {
            Some((start, len)) => r == Some((start as usize, len as usize)),
            None => r is None,
        },
{
    let key: [u8; 16] = [0x43u8, 0x6fu8, 0x6eu8, 0x74u8, 0x65u8, 0x6eu8, 0x74u8, 0x2du8, 0x4cu8, 0x65u8,
        0x6eu8, 0x67u8, 0x74u8, 0x68u8, 0x3au8, 0x20u8];
    let end: [u8; 4] = [0x0du8, 0x0au8, 0x0du8, 0x0au8];
    proof {
        assert(key@ =~= content_length_key());
        assert(end@ =~= header_end());
    }
    let cl = match find_pattern_end(buf, key.as_slice(), 0) {
        Some(cl) => cl,
        None => {
            return None;
        },
    };
    proof {
        lemma_pattern_end_bounds(buf@, content_length_key(), 0);
    }
    let rest = vstd::slice::slice_subrange(buf, cl, buf.len());
    let c = match find_pattern_end(rest, end.as_slice(), 0) {
        Some(c) => c,
        None => {
            return None;
        },
    };
    proof {
        lemma_pattern_end_bounds(rest@, header_end(), 0);
    }
    let len = parse_number(rest, 0);
    Some((cl + c, len))
}

proof fn lemma_pattern_end_bounds(buf: Seq<u8>, pattern: Seq<u8>, from: int)
    ensures
        pattern_end(buf, pattern, from) matches Some(e) ==> from <= e <= buf.len(),
    decreases buf.len() + 1 - from,
{
    if from >= 0 && from + pattern.len() <= buf.len() && buf.subrange(from, from + pattern.len()) != pattern {
        lemma_pattern_end_bounds(buf, pattern, from + 1);
    }
}

/// Bytes read from a language server and not yet consumed: `buf[read_index..write_index]`.
pub struct ReadBuf {
    pub buf: Vec<u8>,
    pub read_index: usize,
    pub write_index: usize,
}

impl ReadBuf {
    pub open spec fn wf(&self) -> bool {
        self.read_index <= self.write_index <= self.buf@.len()
    }

    pub open spec fn pending(&self) -> Seq<u8> {
        self.buf@.subrange(self.read_index as int, self.write_index as int)
    }

    pub fn new() -> (r: Self)
        ensures
            r.wf(),
            r.buf@.len() == 4096,
            r.pending().len() == 0,
    {
        let mut buf: Vec<u8> = Vec::new();
        while buf.len() < 4096
            invariant
                buf@.len() <= 4096,
            decreases 4096 - buf@.len(),
        {
            buf.push(0);
        }
        ReadBuf { buf, read_index: 0, write_index: 0 }
    }

    /// The range of `buf` that holds the content of the first complete message, which is then
    /// consumed; `None` while no message is complete.
    pub fn take_content(&mut self) -> (r: Option<(usize, usize)>)
        requires
            old(self).wf(),
        ensures
            final(self).wf(),
            final(self).buf == old(self).buf,
            match content_span(old(self).pending()) {
                Some((start, len)) => if start + len <= old(self).pending().len() {
                    &&& r == Some(((old(self).read_index + start) as usize, (old(self).read_index + start + len) as usize))
                    &&& final(self).pending() == old(self).pending().subrange(start + len, old(self).pending().len() as int)
                } else {
                    r is None && final(self).read_index == old(self).read_index && final(self).write_index == old(self).write_index
                },
                None => r is None && final(self).read_index == old(self).read_index && final(self).write_index == old(self).write_index,
            },
    {
        let pending = vstd::slice::slice_subrange(self.buf.as_slice(), self.read_index, self.write_index);
        let (start, len) = match parse_content_span(pending) {
            Some(span) => span,
            None => {
                return None;
            },
        };
        proof {
            lemma_content_span_bounds(pending@);
        }
        if len > pending.len() - start {
            return None;
        }
        let from = self.read_index + start;
        let to = from + len;
        let ghost old_pending = self.pending();
        self.read_index = to;
        if self.read_index == self.write_index {
            self.read_index = 0;
            self.write_index = 0;
        }
        proof {
            assert(self.pending() =~= old_pending.subrange(start + len, old_pending.len() as int));
        }
        Some((from, to))
    }

    /// Makes room to read more: moves pending bytes to the front once more than half the
    /// buffer is consumed, else doubles the buffer while it is full or shorter than `needed`.
    pub fn make_room(&mut self, needed: usize)
        requires
            old(self).wf(),
            old(self).buf@.len() > 0,
            needed <= usize::MAX / 2,
            old(self).buf@.len() <= usize::MAX / 2,
        ensures
            final(self).wf(),
            final(self).pending() == old(self).pending(),
            final(self).buf@.len() > 0,
            old(self).read_index > old(self).buf@.len() / 2 ==> final(self).read_index == 0,
            old(self).read_index <= old(self).buf@.len() / 2 ==> (final(self).write_index < final(self).buf@.len()
                && needed <= final(self).buf@.len()) || final(self).buf@.len() > usize::MAX / 2,
    {
        let len = self.buf.len();
        if self.read_index > len / 2 {
            let ghost old_pending = self.pending();
            let count = self.write_index - self.read_index;
            let mut k: usize = 0;
            while k < count
                invariant
                    self.read_index <= self.write_index <= self.buf@.len(),
                    count == self.write_index - self.read_index,
                    k <= count,
                    count <= self.read_index,
                    self.buf@.len() == len,
                    old_pending == self.buf@.subrange(self.read_index as int, self.write_index as int),
                    forall|j: int| 0 <= j < k ==> self.buf@[j] == old_pending[j],
                decreases count - k,
            {
                let b = self.buf[self.read_index + k];
                self.buf.set(k, b);
                proof {
                    assert(self.buf@.subrange(self.read_index as int, self.write_index as int) =~= old_pending);
                }
                k = k + 1;
            }
            self.read_index = 0;
            self.write_index = count;
            proof {
                assert(self.pending() =~= old_pending);
            }
        } else {
            while (self.write_index == self.buf.len() || needed > self.buf.len()) && self.buf.len() <= usize::MAX / 2
                invariant
                    self.read_index <= self.write_index <= self.buf@.len(),
                    self.buf@.len() > 0,
                    self.read_index == old(self).read_index,
                    self.write_index == old(self).write_index,
                    needed <= usize::MAX / 2,
                    self.pending() == old(self).pending(),
                decreases usize::MAX - self.buf@.len(),
            {
                let ghost before = self.buf@;
                let n = self.buf.len();
                let mut k: usize = 0;
                while k < n
                    invariant
                        k <= n,
                        n == before.len(),
                        n <= usize::MAX / 2,
                        self.read_index <= self.write_index <= n,
                        self.read_index == old(self).read_index,
                        self.write_index == old(self).write_index,
                        self.buf@.len() == n + k,
                        self.buf@.subrange(0, n as int) == before,
                    decreases n - k,
                {
                    self.buf.push(0);
                    proof {
                        assert(self.buf@.subrange(0, n as int) =~= before);
                    }
                    k = k + 1;
                }
                proof {
                    assert(self.pending() =~= before.subrange(self.read_index as int, self.write_index as int));
                }
            }
        }
    }

    /// Records that `len` more bytes were read into `buf` at `write_index`.
    pub fn on_read(&mut self, len: usize)
        requires
            old(self).wf(),
            old(self).write_index + len <= old(self).buf@.len(),
        ensures
            final(self).wf(),
            final(self).buf == old(self).buf,
            final(self).read_index == old(self).read_index,
            final(self).write_index == old(self).write_index + len,
    {
        if len <= self.buf.len() - self.write_index {
            self.write_index = self.write_index + len;
        }
    }

    /// Drops everything pending, after a failed read.
    pub fn reset(&mut self)
        ensures
            final(self).buf == old(self).buf,
            final(self).read_index == 0,
            final(self).write_index == 0,
    {
        self.read_index = 0;
        self.write_index = 0;
    }
}

proof fn lemma_content_span_bounds(buf: Seq<u8>)
    ensures
        content_span(buf) matches Some((start, len)) ==> 0 <= start <= buf.len() && 0 <= len <= usize::MAX,
{
    lemma_pattern_end_bounds(buf, content_length_key(), 0);
    match pattern_end(buf, content_length_key(), 0) {
        Some(cl) => {
            let rest = buf.subrange(cl, buf.len() as int);
            lemma_pattern_end_bounds(rest, header_end(), 0);
            lemma_leading_number_bound(rest, 0, 0);
        },
        None => {},
    }
}

proof fn lemma_leading_number_bound(digits: Seq<u8>, i: int, n: nat)
    requires
        n <= usize::MAX,
    ensures
        leading_number(digits, i, n) <= usize::MAX,
    decreases digits.len() - i,
{
    if !(i < 0 || i >= digits.len() || !(0x30u8 <= digits[i] && digits[i] <= 0x39u8)) {
        let next = n * 10 + (digits[i] - 0x30u8) as nat;
        lemma_leading_number_bound(digits, i + 1, if next > usize::MAX { usize::MAX as nat } else { next });
    }
}

} // verus!
