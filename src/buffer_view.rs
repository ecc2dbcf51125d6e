use vstd::prelude::*;

verus! {

/// A place in a buffer: line, and byte column in that line.
#[derive(Clone, Copy, PartialEq, Eq, Structural, Debug, Default)]
pub struct BufferPosition {
    pub line_index: usize,
    pub column_byte_index: usize,
}

/// A half-open range of a buffer.
#[derive(Clone, Copy, PartialEq, Eq, Structural, Debug, Default)]
pub struct BufferRange {
    pub from: BufferPosition,
    pub to: BufferPosition,
}

#[derive(Clone, Copy, PartialEq, Eq, Structural, Debug, Default)]
pub struct Cursor {
    pub anchor: BufferPosition,
    pub position: BufferPosition,
}

#[derive(Clone, Copy, PartialEq, Eq, Structural, Debug)]
pub enum EditKind {
    Insert,
    Remove,
}

pub open spec fn pos_lt(a: BufferPosition, b: BufferPosition) -> bool {
    a.line_index < b.line_index || (a.line_index == b.line_index && a.column_byte_index
        < b.column_byte_index)
}

pub open spec fn pos_le(a: BufferPosition, b: BufferPosition) -> bool {
    !pos_lt(b, a)
}

/// A range whose start does not come after its end.
pub open spec fn range_wf(r: BufferRange) -> bool {
    pos_le(r.from, r.to)
}

/// `v` as a `usize`, saturated at the largest one.
pub open spec fn sat(v: int) -> usize {
    if v > usize::MAX {
        usize::MAX
    } else {
        v as usize
    }
}

/// Where `p` goes when the text of `r` is inserted: unchanged before the insertion point,
/// otherwise pushed forward by the inserted text.
pub open spec fn insert_shift(p: BufferPosition, r: BufferRange) -> BufferPosition {
    if pos_lt(p, r.from) {
        p
    } else if p.line_index == r.from.line_index {
        BufferPosition {
            line_index: r.to.line_index,
            column_byte_index: sat(r.to.column_byte_index + (p.column_byte_index - r.from.column_byte_index)),
        }
    } else {
        BufferPosition {
            line_index: sat(p.line_index + (r.to.line_index - r.from.line_index)),
            column_byte_index: p.column_byte_index,
        }
    }
}

/// Where `p` goes when the text of `r` is deleted: unchanged before it, collapsed to its start
/// inside it, pulled back after it.
pub open spec fn delete_shift(p: BufferPosition, r: BufferRange) -> BufferPosition {
    if pos_le(p, r.from) {
        p
    } else if pos_lt(p, r.to) {
        r.from
    } else if p.line_index == r.to.line_index {
        BufferPosition {
            line_index: r.from.line_index,
            column_byte_index: sat(r.from.column_byte_index + (p.column_byte_index - r.to.column_byte_index)),
        }
    } else {
        BufferPosition {
            line_index: (p.line_index - (r.to.line_index - r.from.line_index)) as usize,
            column_byte_index: p.column_byte_index,
        }
    }
}

pub fn shift_for_insert(p: BufferPosition, r: BufferRange) -> (q: BufferPosition)
    requires
        range_wf(r),
    ensures
        q == insert_shift(p, r),
{
    if p.line_index < r.from.line_index || (p.line_index == r.from.line_index
        && p.column_byte_index < r.from.column_byte_index) {
        p
    } else if p.line_index == r.from.line_index {
        BufferPosition {
            line_index: r.to.line_index,
            column_byte_index: r.to.column_byte_index.saturating_add(p.column_byte_index - r.from.column_byte_index),
        }
    } else {
        BufferPosition {
            line_index: p.line_index.saturating_add(r.to.line_index - r.from.line_index),
            column_byte_index: p.column_byte_index,
        }
    }
}

pub fn shift_for_delete(p: BufferPosition, r: BufferRange) -> (q: BufferPosition)
    requires
        range_wf(r),
    ensures
        q == delete_shift(p, r),
{
    if !(r.from.line_index < p.line_index || (r.from.line_index == p.line_index
        && r.from.column_byte_index < p.column_byte_index)) {
        p
    } else if p.line_index < r.to.line_index || (p.line_index == r.to.line_index
        && p.column_byte_index < r.to.column_byte_index) {
        r.from
    } else if p.line_index == r.to.line_index {
        BufferPosition {
            line_index: r.from.line_index,
            column_byte_index: r.from.column_byte_index.saturating_add(p.column_byte_index - r.to.column_byte_index),
        }
    } else {
        BufferPosition {
            line_index: p.line_index - (r.to.line_index - r.from.line_index),
            column_byte_index: p.column_byte_index,
        }
    }
}

pub open spec fn cursor_insert(c: Cursor, r: BufferRange) -> Cursor {
    Cursor { anchor: insert_shift(c.anchor, r), position: insert_shift(c.position, r) }
}

pub open spec fn cursor_delete(c: Cursor, r: BufferRange) -> Cursor {
    Cursor { anchor: delete_shift(c.anchor, r), position: delete_shift(c.position, r) }
}

/// A cursor after each edit of a sequence, in order.
pub open spec fn apply_edits_to(c: Cursor, edits: Seq<(EditKind, BufferRange)>) -> Cursor
    decreases edits.len(),
{
    if edits.len() == 0 {
        c
    } else {
        let last = edits.last();
        let before = apply_edits_to(c, edits.drop_last());
        match last.0 {
            EditKind::Insert => cursor_insert(before, last.1),
            EditKind::Remove => cursor_delete(before, last.1),
        }
    }
}

/// The selection of a cursor, from its earlier end to its later one.
pub open spec fn selection(c: Cursor) -> BufferRange {
    if pos_lt(c.position, c.anchor) {
        BufferRange { from: c.position, to: c.anchor }
    } else {
        BufferRange { from: c.anchor, to: c.position }
    }
}

/// A view of one buffer with its cursors; the first cursor is the main one.
pub struct BufferView {
    pub buffer_handle: usize,
    pub cursors: Vec<Cursor>,
}

impl BufferView {
    pub fn with_handle(buffer_handle: usize) -> (r: Self)
        ensures
            r.buffer_handle == buffer_handle,
            r.cursors@ == seq![Cursor::default_spec()],
    {
        let mut cursors = Vec::new();
        cursors.push(Cursor { anchor: BufferPosition::origin(), position: BufferPosition::origin() });
        BufferView { buffer_handle, cursors }
    }

    /// Moves every cursor's position by whole lines and columns, clamped into the buffer whose
    /// lines have the lengths `line_lengths`.
    pub fn move_cursors(&mut self, line_lengths: &Vec<usize>, line_offset: i64, column_offset: i64)
        requires
            line_lengths@.len() > 0,
            line_lengths@.len() <= i64::MAX,
            forall|i: int| 0 <= i < line_lengths@.len() ==> line_lengths@[i] <= i64::MAX,
        ensures
            final(self).buffer_handle == old(self).buffer_handle,
            final(self).cursors@.len() == old(self).cursors@.len(),
            forall|i: int| 0 <= i < final(self).cursors@.len() ==> {
                let c = old(self).cursors@[i];
                let line = clamp(c.position.line_index + line_offset, 0, line_lengths@.len() - 1);
                #[trigger] final(self).cursors@[i] == Cursor {
                    anchor: c.anchor,
                    position: BufferPosition {
                        line_index: line as usize,
                        column_byte_index: clamp(
                            c.position.column_byte_index + column_offset,
                            0,
                            line_lengths@[line] as int,
                        ) as usize,
                    },
                }
            },
    {
        let n = line_lengths.len() as i64;
        let mut i: usize = 0;
        while i < self.cursors.len()
            invariant
                self.buffer_handle == old(self).buffer_handle,
                self.cursors@.len() == old(self).cursors@.len(),
                i <= self.cursors@.len(),
                n == line_lengths@.len(),
                line_lengths@.len() <= usize::MAX,
                line_lengths@.len() > 0,
                forall|i: int| 0 <= i < line_lengths@.len() ==> line_lengths@[i] <= i64::MAX,
                forall|k: int| i <= k < self.cursors@.len() ==> self.cursors@[k] == old(self).cursors@[k],
                forall|k: int| 0 <= k < i ==> {
                    let c = old(self).cursors@[k];
                    let line = clamp(c.position.line_index + line_offset, 0, line_lengths@.len() - 1);
                    #[trigger] self.cursors@[k] == Cursor {
                        anchor: c.anchor,
                        position: BufferPosition {
                            line_index: line as usize,
                            column_byte_index: clamp(
                                c.position.column_byte_index + column_offset,
                                0,
                                line_lengths@[line] as int,
                            ) as usize,
                        },
                    }
                },
            decreases self.cursors@.len() - i,
        {
            let c = self.cursors[i];
            let line = clamp_add(c.position.line_index, line_offset, (n - 1) as u64);
            proof {
                assert(line <= n - 1);
                assert((line as usize) as int == line as int);
            }
            let column = clamp_add(c.position.column_byte_index, column_offset, line_lengths[line as usize] as u64);
            self.cursors.set(
                i,
                Cursor {
                    anchor: c.anchor,
                    position: BufferPosition { line_index: line as usize, column_byte_index: column as usize },
                },
            );
            i = i + 1;
        }
    }

    pub fn collapse_cursor_anchors(&mut self)
        ensures
            final(self).buffer_handle == old(self).buffer_handle,
            final(self).cursors@.len() == old(self).cursors@.len(),
            forall|i: int| 0 <= i < final(self).cursors@.len() ==> #[trigger] final(self).cursors@[i]
                == (Cursor { anchor: old(self).cursors@[i].position, position: old(self).cursors@[i].position }),
    {
        let mut i: usize = 0;
        while i < self.cursors.len()
            invariant
                self.buffer_handle == old(self).buffer_handle,
                self.cursors@.len() == old(self).cursors@.len(),
                i <= self.cursors@.len(),
                forall|k: int| i <= k < self.cursors@.len() ==> self.cursors@[k] == old(self).cursors@[k],
                forall|k: int| 0 <= k < i ==> #[trigger] self.cursors@[k] == (Cursor {
                    anchor: old(self).cursors@[k].position,
                    position: old(self).cursors@[k].position,
                }),
            decreases self.cursors@.len() - i,
        {
            let c = self.cursors[i];
            self.cursors.set(i, Cursor { anchor: c.position, position: c.position });
            i = i + 1;
        }
    }

    pub fn swap_cursor_position_and_anchor(&mut self)
        ensures
            final(self).buffer_handle == old(self).buffer_handle,
            final(self).cursors@.len() == old(self).cursors@.len(),
            forall|i: int| 0 <= i < final(self).cursors@.len() ==> #[trigger] final(self).cursors@[i]
                == (Cursor { anchor: old(self).cursors@[i].position, position: old(self).cursors@[i].anchor }),
    {
        let mut i: usize = 0;
        while i < self.cursors.len()
            invariant
                self.buffer_handle == old(self).buffer_handle,
                self.cursors@.len() == old(self).cursors@.len(),
                i <= self.cursors@.len(),
                forall|k: int| i <= k < self.cursors@.len() ==> self.cursors@[k] == old(self).cursors@[k],
                forall|k: int| 0 <= k < i ==> #[trigger] self.cursors@[k] == (Cursor {
                    anchor: old(self).cursors@[k].position,
                    position: old(self).cursors@[k].anchor,
                }),
            decreases self.cursors@.len() - i,
        {
            let c = self.cursors[i];
            self.cursors.set(i, Cursor { anchor: c.position, position: c.anchor });
            i = i + 1;
        }
    }

    /// Shifts every cursor for each edit of `edits`, in order.
    pub fn shift_cursors(&mut self, edits: &Vec<(EditKind, BufferRange)>)
        requires
            edits_wf(edits@),
        ensures
            final(self).buffer_handle == old(self).buffer_handle,
            final(self).cursors@.len() == old(self).cursors@.len(),
            forall|i: int| 0 <= i < final(self).cursors@.len() ==> #[trigger] final(self).cursors@[i]
                == apply_edits_to(old(self).cursors@[i], edits@),
    {
        let mut i: usize = 0;
        while i < self.cursors.len()
            invariant
                edits_wf(edits@),
                self.buffer_handle == old(self).buffer_handle,
                self.cursors@.len() == old(self).cursors@.len(),
                i <= self.cursors@.len(),
                forall|k: int| i <= k < self.cursors@.len() ==> self.cursors@[k] == old(self).cursors@[k],
                forall|k: int| 0 <= k < i ==> #[trigger] self.cursors@[k] == apply_edits_to(
                    old(self).cursors@[k],
                    edits@,
                ),
            decreases self.cursors@.len() - i,
        {
            let c = apply_edits_cursor(self.cursors[i], edits);
            self.cursors.set(i, c);
            i = i + 1;
        }
    }
}

/// Every edit range is well formed.
pub open spec fn edits_wf(edits: Seq<(EditKind, BufferRange)>) -> bool {
    forall|e: int| 0 <= e < edits.len() ==> range_wf(#[trigger] edits[e].1)
}

fn apply_edits_cursor(c: Cursor, edits: &Vec<(EditKind, BufferRange)>) -> (r: Cursor)
    requires
        edits_wf(edits@),
    ensures
        r == apply_edits_to(c, edits@),
{
    let mut d = c;
    let mut e: usize = 0;
    while e < edits.len()
        invariant
            e <= edits@.len(),
            d == apply_edits_to(c, edits@.subrange(0, e as int)),
            edits_wf(edits@),
        decreases edits@.len() - e,
    {
        let (kind, range) = edits[e];
        proof {
            let next = edits@.subrange(0, e + 1);
            assert(next.drop_last() =~= edits@.subrange(0, e as int));
            assert(next.last() == edits@[e as int]);
        }
        d = match kind {
            EditKind::Insert => Cursor {
                anchor: shift_for_insert(d.anchor, range),
                position: shift_for_insert(d.position, range),
            },
            EditKind::Remove => Cursor {
                anchor: shift_for_delete(d.anchor, range),
                position: shift_for_delete(d.position, range),
            },
        };
        e = e + 1;
    }
    proof {
        assert(edits@.subrange(0, edits@.len() as int) =~= edits@);
    }
    d
}

pub open spec fn clamp(v: int, lo: int, hi: int) -> int {
    if v < lo {
        lo
    } else if v > hi {
        hi
    } else {
        v
    }
}

/// `base + offset`, clamped into `0..=max`.
fn clamp_add(base: usize, offset: i64, max: u64) -> (r: u64)
    requires
        max <= i64::MAX,
    ensures
        r == clamp(base + offset, 0, max as int),
{
    if offset < 0 {
        let back = (0 - (offset as i128)) as u128;
        if (base as u128) < back {
            0
        } else {
            let v = (base as u128) - back;
            if v > max as u128 {
                max
            } else {
                v as u64
            }
        }
    } else {
        let v = (base as u128) + (offset as u128);
        if v > max as u128 {
            max
        } else {
            v as u64
        }
    }
}

impl BufferPosition {
    pub fn origin() -> (r: Self)
        ensures
            r == BufferPosition::default_spec(),
    {
        BufferPosition { line_index: 0, column_byte_index: 0 }
    }

    pub open spec fn default_spec() -> Self {
        BufferPosition { line_index: 0, column_byte_index: 0 }
    }
}

impl Cursor {
    pub open spec fn default_spec() -> Self {
        Cursor { anchor: BufferPosition::default_spec(), position: BufferPosition::default_spec() }
    }
}

/// A view after an edit made through another view: a sibling (a view of the same buffer) has
/// every cursor shifted by each edit in order; a view of another buffer is unchanged.
pub open spec fn follows_edits(
    before: BufferView,
    after: BufferView,
    buffer_handle: usize,
    edits: Seq<(EditKind, BufferRange)>,
) -> bool {
    &&& after.buffer_handle == before.buffer_handle
    &&& after.cursors@.len() == before.cursors@.len()
    &&& before.buffer_handle == buffer_handle ==> forall|c: int|
        0 <= c < after.cursors@.len() ==> #[trigger] after.cursors@[c] == apply_edits_to(
            before.cursors@[c],
            edits,
        )
    &&& before.buffer_handle != buffer_handle ==> after.cursors@ == before.cursors@
}

pub open spec fn as_inserts(ranges: Seq<BufferRange>) -> Seq<(EditKind, BufferRange)> {
    ranges.map_values(|r: BufferRange| (EditKind::Insert, r))
}

pub open spec fn as_removes(ranges: Seq<BufferRange>) -> Seq<(EditKind, BufferRange)> {
    ranges.map_values(|r: BufferRange| (EditKind::Remove, r))
}

pub open spec fn ranges_wf(ranges: Seq<BufferRange>) -> bool {
    forall|k: int| 0 <= k < ranges.len() ==> range_wf(#[trigger] ranges[k])
}

/// Where the cursors of the acting view end after undoing or redoing `edits`: every cursor
/// collapsed onto the end of the last inserted range or the start of the last removed one.
pub open spec fn edit_end(e: (EditKind, BufferRange)) -> BufferPosition {
    match e.0 {
        EditKind::Insert => e.1.to,
        EditKind::Remove => e.1.from,
    }
}

#[derive(Default)]
pub struct BufferViewCollection {
    pub buffer_views: Vec<BufferView>,
}

impl BufferViewCollection {
    pub fn new() -> (r: Self)
        ensures
            r.buffer_views@.len() == 0,
    {
        BufferViewCollection { buffer_views: Vec::new() }
    }

    pub fn len(&self) -> (r: usize)
        ensures
            r == self.buffer_views@.len(),
    {
        self.buffer_views.len()
    }

    pub fn push(&mut self, buffer_view: BufferView)
        ensures
            final(self).buffer_views@ == old(self).buffer_views@.push(buffer_view),
    {
        self.buffer_views.push(buffer_view);
    }

    pub fn move_cursors(&mut self, line_lengths: &Vec<usize>, index: Option<usize>, line_offset: i64, column_offset: i64)
        requires
            line_lengths@.len() > 0,
            line_lengths@.len() <= i64::MAX,
            forall|i: int| 0 <= i < line_lengths@.len() ==> line_lengths@[i] <= i64::MAX,
        ensures
            final(self).buffer_views@.len() == old(self).buffer_views@.len(),
            forall|j: int| 0 <= j < final(self).buffer_views@.len() && index != Some(j as usize) ==> #[trigger] final(self).buffer_views@[j]
                == old(self).buffer_views@[j],
    {
        if let Some(index) = index {
            if index < self.buffer_views.len() {
                let mut view = BufferView { buffer_handle: 0, cursors: Vec::new() };
                self.buffer_views.set_and_swap(index, &mut view);
                view.move_cursors(line_lengths, line_offset, column_offset);
                self.buffer_views.set(index, view);
            }
        }
    }

    pub fn collapse_cursor_anchors(&mut self, index: Option<usize>)
        ensures
            final(self).buffer_views@.len() == old(self).buffer_views@.len(),
            forall|j: int| 0 <= j < final(self).buffer_views@.len() && index != Some(j as usize) ==> #[trigger] final(self).buffer_views@[j]
                == old(self).buffer_views@[j],
    {
        if let Some(index) = index {
            if index < self.buffer_views.len() {
                let mut view = BufferView { buffer_handle: 0, cursors: Vec::new() };
                self.buffer_views.set_and_swap(index, &mut view);
                view.collapse_cursor_anchors();
                self.buffer_views.set(index, view);
            }
        }
    }

    pub fn swap_cursor_position_and_anchor(&mut self, index: Option<usize>)
        ensures
            final(self).buffer_views@.len() == old(self).buffer_views@.len(),
            forall|j: int| 0 <= j < final(self).buffer_views@.len() && index != Some(j as usize) ==> #[trigger] final(self).buffer_views@[j]
                == old(self).buffer_views@[j],
    {
        if let Some(index) = index {
            if index < self.buffer_views.len() {
                let mut view = BufferView { buffer_handle: 0, cursors: Vec::new() };
                self.buffer_views.set_and_swap(index, &mut view);
                view.swap_cursor_position_and_anchor();
                self.buffer_views.set(index, view);
            }
        }
    }

    /// Shifts the cursors of every sibling of view `index` for `edits`.
    fn shift_siblings(&mut self, index: usize, edits: &Vec<(EditKind, BufferRange)>)
        requires
            index < old(self).buffer_views@.len(),
            edits_wf(edits@),
        ensures
            final(self).buffer_views@.len() == old(self).buffer_views@.len(),
            final(self).buffer_views@[index as int] == old(self).buffer_views@[index as int],
            forall|j: int| 0 <= j < final(self).buffer_views@.len() && j != index ==> follows_edits(
                old(self).buffer_views@[j],
                #[trigger] final(self).buffer_views@[j],
                old(self).buffer_views@[index as int].buffer_handle,
                edits@,
            ),
    {
        let handle = self.buffer_views[index].buffer_handle;
        let mut j: usize = 0;
        while j < self.buffer_views.len()
            invariant
                index < self.buffer_views@.len(),
                edits_wf(edits@),
                handle == old(self).buffer_views@[index as int].buffer_handle,
                j <= self.buffer_views@.len(),
                self.buffer_views@.len() == old(self).buffer_views@.len(),
                self.buffer_views@[index as int] == old(self).buffer_views@[index as int],
                forall|k: int| j <= k < self.buffer_views@.len() ==> self.buffer_views@[k] == old(self).buffer_views@[k],
                forall|k: int| 0 <= k < j && k != index ==> follows_edits(
                    old(self).buffer_views@[k],
                    #[trigger] self.buffer_views@[k],
                    handle,
                    edits@,
                ),
            decreases self.buffer_views@.len() - j,
        {
            if j != index && self.buffer_views[j].buffer_handle == handle {
                let mut view = BufferView { buffer_handle: 0, cursors: Vec::new() };
                self.buffer_views.set_and_swap(j, &mut view);
                view.shift_cursors(edits);
                self.buffer_views.set(j, view);
            }
            j = j + 1;
        }
    }

    /// Records text inserted through view `index`: `ranges[k]` is what the buffer inserted at
    /// that view's cursor `k`. Each of its cursors moves past its own insertion; every sibling
    /// cursor shifts for all insertions in order.
    pub fn insert_text(&mut self, index: Option<usize>, ranges: &Vec<BufferRange>)
        requires
            ranges_wf(ranges@),
            index matches Some(i) ==> i < old(self).buffer_views@.len()
                && ranges@.len() == old(self).buffer_views@[i as int].cursors@.len(),
        ensures
            final(self).buffer_views@.len() == old(self).buffer_views@.len(),
            index is None ==> final(self).buffer_views@ == old(self).buffer_views@,
            index matches Some(i) ==> {
                let acting = old(self).buffer_views@[i as int];
                &&& final(self).buffer_views@[i as int].buffer_handle == acting.buffer_handle
                &&& final(self).buffer_views@[i as int].cursors@.len() == acting.cursors@.len()
                &&& forall|c: int| 0 <= c < acting.cursors@.len() ==> #[trigger] final(self).buffer_views@[i as int].cursors@[c]
                    == cursor_insert(acting.cursors@[c], ranges@[c])
                &&& forall|j: int| 0 <= j < final(self).buffer_views@.len() && j != i ==> follows_edits(
                    old(self).buffer_views@[j],
                    #[trigger] final(self).buffer_views@[j],
                    acting.buffer_handle,
                    as_inserts(ranges@),
                )
            },
    {
        let index = match index {
            Some(index) => index,
            None => {
                return;
            },
        };
        let mut edits: Vec<(EditKind, BufferRange)> = Vec::new();
        let mut k: usize = 0;
        while k < ranges.len()
            invariant
                k <= ranges@.len(),
                ranges_wf(ranges@),
                edits@ == as_inserts(ranges@.subrange(0, k as int)),
            decreases ranges@.len() - k,
        {
            edits.push((EditKind::Insert, ranges[k]));
            proof {
                assert(as_inserts(ranges@.subrange(0, k + 1)) =~= as_inserts(ranges@.subrange(0, k as int)).push((EditKind::Insert, ranges@[k as int])));
            }
            k = k + 1;
        }
        proof {
            assert(ranges@.subrange(0, ranges@.len() as int) =~= ranges@);
        }
        self.shift_siblings(index, &edits);
        let mut view = BufferView { buffer_handle: 0, cursors: Vec::new() };
        self.buffer_views.set_and_swap(index, &mut view);
        let ghost acting = view;
        let mut c: usize = 0;
        while c < view.cursors.len()
            invariant
                c <= view.cursors@.len(),
                view.buffer_handle == acting.buffer_handle,
                view.cursors@.len() == acting.cursors@.len(),
                ranges@.len() == acting.cursors@.len(),
                ranges_wf(ranges@),
                forall|k: int| c <= k < view.cursors@.len() ==> view.cursors@[k] == acting.cursors@[k],
                forall|k: int| 0 <= k < c ==> #[trigger] view.cursors@[k] == cursor_insert(acting.cursors@[k], ranges@[k]),
            decreases view.cursors@.len() - c,
        {
            let cur = view.cursors[c];
            let r = ranges[c];
            view.cursors.set(c, Cursor { anchor: shift_for_insert(cur.anchor, r), position: shift_for_insert(cur.position, r) });
            c = c + 1;
        }
        self.buffer_views.set(index, view);
    }

    /// Removes the selection of every cursor of view `index`: returns those ranges, in cursor
    /// order, for the buffer to delete. Each of its cursors collapses to its selection's start;
    /// every sibling cursor shifts for all deletions in order.
    pub fn remove_in_selection(&mut self, index: Option<usize>) -> (r: Vec<BufferRange>)
        requires
            index matches Some(i) ==> i < old(self).buffer_views@.len(),
        ensures
            final(self).buffer_views@.len() == old(self).buffer_views@.len(),
            index is None ==> final(self).buffer_views@ == old(self).buffer_views@ && r@.len() == 0,
            index matches Some(i) ==> {
                let acting = old(self).buffer_views@[i as int];
                &&& r@.len() == acting.cursors@.len()
                &&& forall|c: int| 0 <= c < r@.len() ==> #[trigger] r@[c] == selection(acting.cursors@[c])
                &&& final(self).buffer_views@[i as int].buffer_handle == acting.buffer_handle
                &&& final(self).buffer_views@[i as int].cursors@.len() == acting.cursors@.len()
                &&& forall|c: int| 0 <= c < acting.cursors@.len() ==> #[trigger] final(self).buffer_views@[i as int].cursors@[c]
                    == cursor_delete(acting.cursors@[c], selection(acting.cursors@[c]))
                &&& forall|j: int| 0 <= j < final(self).buffer_views@.len() && j != i ==> follows_edits(
                    old(self).buffer_views@[j],
                    #[trigger] final(self).buffer_views@[j],
                    acting.buffer_handle,
                    as_removes(r@),
                )
            },
    {
        let index = match index {
            Some(index) => index,
            None => {
                return Vec::new();
            },
        };
        let mut view = BufferView { buffer_handle: 0, cursors: Vec::new() };
        self.buffer_views.set_and_swap(index, &mut view);
        let ghost acting = view;
        let mut ranges: Vec<BufferRange> = Vec::new();
        let mut edits: Vec<(EditKind, BufferRange)> = Vec::new();
        let mut c: usize = 0;
        while c < view.cursors.len()
            invariant
                c <= view.cursors@.len(),
                view.buffer_handle == acting.buffer_handle,
                view.cursors@.len() == acting.cursors@.len(),
                ranges@.len() == c,
                edits@ == as_removes(ranges@),
                forall|k: int| 0 <= k < c ==> #[trigger] ranges@[k] == selection(acting.cursors@[k]),
                forall|k: int| c <= k < view.cursors@.len() ==> view.cursors@[k] == acting.cursors@[k],
                forall|k: int| 0 <= k < c ==> #[trigger] view.cursors@[k] == cursor_delete(
                    acting.cursors@[k],
                    selection(acting.cursors@[k]),
                ),
            decreases view.cursors@.len() - c,
        {
            let cur = view.cursors[c];
            let r = if cur.position.line_index < cur.anchor.line_index || (cur.position.line_index
                == cur.anchor.line_index && cur.position.column_byte_index < cur.anchor.column_byte_index) {
                BufferRange { from: cur.position, to: cur.anchor }
            } else {
                BufferRange { from: cur.anchor, to: cur.position }
            };
            view.cursors.set(c, Cursor { anchor: shift_for_delete(cur.anchor, r), position: shift_for_delete(cur.position, r) });
            ranges.push(r);
            edits.push((EditKind::Remove, r));
            proof {
                assert(as_removes(ranges@) =~= as_removes(ranges@.drop_last()).push((EditKind::Remove, r)));
            }
            c = c + 1;
        }
        self.buffer_views.set(index, view);
        proof {
            assert forall|e: int| 0 <= e < edits@.len() implies range_wf(#[trigger] edits@[e].1) by {
                assert(edits@[e].1 == ranges@[e]);
            }
        }
        self.shift_siblings(index, &edits);
        ranges
    }

    /// Applies undone or redone `edits` through view `index`: its cursors collapse onto the
    /// last edit, and every sibling cursor shifts for each edit in order.
    pub fn apply_edits(&mut self, index: usize, edits: &Vec<(EditKind, BufferRange)>)
        requires
            index < old(self).buffer_views@.len(),
            edits_wf(edits@),
        ensures
            final(self).buffer_views@.len() == old(self).buffer_views@.len(),
            final(self).buffer_views@[index as int].buffer_handle == old(self).buffer_views@[index as int].buffer_handle,
            final(self).buffer_views@[index as int].cursors@.len() == old(self).buffer_views@[index as int].cursors@.len(),
            edits@.len() > 0 ==> forall|c: int| 0 <= c < final(self).buffer_views@[index as int].cursors@.len() ==>
                #[trigger] final(self).buffer_views@[index as int].cursors@[c] == (Cursor {
                    anchor: edit_end(edits@.last()),
                    position: edit_end(edits@.last()),
                }),
            edits@.len() == 0 ==> final(self).buffer_views@[index as int] == old(self).buffer_views@[index as int],
            forall|j: int| 0 <= j < final(self).buffer_views@.len() && j != index ==> follows_edits(
                old(self).buffer_views@[j],
                #[trigger] final(self).buffer_views@[j],
                old(self).buffer_views@[index as int].buffer_handle,
                edits@,
            ),
    {
        self.shift_siblings(index, edits);
        if edits.len() == 0 {
            return;
        }
        let last = edits[edits.len() - 1];
        let end = match last.0 {
            EditKind::Insert => last.1.to,
            EditKind::Remove => last.1.from,
        };
        let mut view = BufferView { buffer_handle: 0, cursors: Vec::new() };
        self.buffer_views.set_and_swap(index, &mut view);
        let ghost acting = view;
        let mut c: usize = 0;
        while c < view.cursors.len()
            invariant
                c <= view.cursors@.len(),
                view.buffer_handle == acting.buffer_handle,
                view.cursors@.len() == acting.cursors@.len(),
                forall|k: int| 0 <= k < c ==> #[trigger] view.cursors@[k] == (Cursor { anchor: end, position: end }),
            decreases view.cursors@.len() - c,
        {
            view.cursors.set(c, Cursor { anchor: end, position: end });
            c = c + 1;
        }
        self.buffer_views.set(index, view);
    }

    /// Undoes through view `index` with the inverse edits the buffer reported.
    pub fn undo(&mut self, index: Option<usize>, edits: &Vec<(EditKind, BufferRange)>)
        requires
            index matches Some(i) ==> i < old(self).buffer_views@.len(),
            edits_wf(edits@),
        ensures
            index is None ==> final(self).buffer_views@ == old(self).buffer_views@,
            final(self).buffer_views@.len() == old(self).buffer_views@.len(),
            index matches Some(i) ==> {
                &&& edits@.len() > 0 ==> forall|c: int| 0 <= c < final(self).buffer_views@[i as int].cursors@.len()
                    ==> #[trigger] final(self).buffer_views@[i as int].cursors@[c] == (Cursor {
                    anchor: edit_end(edits@.last()),
                    position: edit_end(edits@.last()),
                })
                &&& final(self).buffer_views@[i as int].cursors@.len() == old(self).buffer_views@[i as int].cursors@.len()
                &&& forall|j: int| 0 <= j < final(self).buffer_views@.len() && j != i ==> follows_edits(
                    old(self).buffer_views@[j],
                    #[trigger] final(self).buffer_views@[j],
                    old(self).buffer_views@[i as int].buffer_handle,
                    edits@,
                )
            },
    {
        if let Some(index) = index {
            self.apply_edits(index, edits);
        }
    }

    /// Redoes through view `index` with the edits the buffer reported.
    pub fn redo(&mut self, index: Option<usize>, edits: &Vec<(EditKind, BufferRange)>)
        requires
            index matches Some(i) ==> i < old(self).buffer_views@.len(),
            edits_wf(edits@),
        ensures
            index is None ==> final(self).buffer_views@ == old(self).buffer_views@,
            final(self).buffer_views@.len() == old(self).buffer_views@.len(),
            index matches Some(i) ==> {
                &&& edits@.len() > 0 ==> forall|c: int| 0 <= c < final(self).buffer_views@[i as int].cursors@.len()
                    ==> #[trigger] final(self).buffer_views@[i as int].cursors@[c] == (Cursor {
                    anchor: edit_end(edits@.last()),
                    position: edit_end(edits@.last()),
                })
                &&& final(self).buffer_views@[i as int].cursors@.len() == old(self).buffer_views@[i as int].cursors@.len()
                &&& forall|j: int| 0 <= j < final(self).buffer_views@.len() && j != i ==> follows_edits(
                    old(self).buffer_views@[j],
                    #[trigger] final(self).buffer_views@[j],
                    old(self).buffer_views@[i as int].buffer_handle,
                    edits@,
                )
            },
    {
        if let Some(index) = index {
            self.apply_edits(index, edits);
        }
    }
}

} // verus!
