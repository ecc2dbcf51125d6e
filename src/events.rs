use vstd::prelude::*;

use crate::buffer_view::{BufferRange, Cursor};

verus! {

/// A range of the cursors stored beside the events of one generation.
#[derive(Clone, Copy, PartialEq, Eq, Structural, Debug)]
pub struct EditorEventCursors {
    pub from: usize,
    pub to: usize,
}

#[derive(Clone, Copy, PartialEq, Eq, Structural, Debug)]
pub enum EditorEvent {
    Idle,
    BufferRead { handle: usize },
    BufferInsertText { handle: usize, range: BufferRange },
    BufferDeleteText { handle: usize, range: BufferRange },
    BufferWrite { handle: usize, new_path: bool },
    BufferClose { handle: usize },
    FixCursors { view_handle: usize, cursors: EditorEventCursors },
    BufferBreakpointsChanged { handle: usize },
}

/// A double-buffered queue: producers write the next generation while consumers read the
/// current one by index.
pub struct EditorEventQueue {
    pub read: Vec<EditorEvent>,
    pub read_cursors: Vec<Cursor>,
    pub write: Vec<EditorEvent>,
    pub write_cursors: Vec<Cursor>,
}

impl EditorEventQueue {
    pub fn new() -> (r: Self)
        ensures
            r.read@.len() == 0,
            r.write@.len() == 0,
            r.write_cursors@.len() == 0,
    {
        EditorEventQueue {
            read: Vec::new(),
            read_cursors: Vec::new(),
            write: Vec::new(),
            write_cursors: Vec::new(),
        }
    }

    /// Adds an event to the next generation.
    pub fn enqueue(&mut self, event: EditorEvent)
        ensures
            final(self).write@ == old(self).write@.push(event),
            final(self).read == old(self).read,
            final(self).read_cursors == old(self).read_cursors,
            final(self).write_cursors == old(self).write_cursors,
    {
        self.write.push(event);
    }

    /// Adds a request to reset the cursors of view `view_handle` to `cursors`.
    pub fn enqueue_fix_cursors(&mut self, view_handle: usize, cursors: &Vec<Cursor>)
        requires
            old(self).write_cursors@.len() + cursors@.len() <= usize::MAX,
        ensures
            final(self).write_cursors@ == old(self).write_cursors@ + cursors@,
            final(self).write@ == old(self).write@.push(
                EditorEvent::FixCursors {
                    view_handle,
                    cursors: EditorEventCursors {
                        from: old(self).write_cursors@.len() as usize,
                        to: (old(self).write_cursors@.len() + cursors@.len()) as usize,
                    },
                },
            ),
            final(self).read == old(self).read,
            final(self).read_cursors == old(self).read_cursors,
    {
        let from = self.write_cursors.len();
        let mut i: usize = 0;
        while i < cursors.len()
            invariant
                i <= cursors@.len(),
                from == old(self).write_cursors@.len(),
                self.write == old(self).write,
                self.read == old(self).read,
                self.read_cursors == old(self).read_cursors,
                self.write_cursors@ == old(self).write_cursors@ + cursors@.subrange(0, i as int),
            decreases cursors@.len() - i,
        {
            self.write_cursors.push(cursors[i]);
            proof {
                assert(old(self).write_cursors@ + cursors@.subrange(0, i + 1) =~= old(self).write_cursors@
                    + cursors@.subrange(0, i as int) + seq![cursors@[i as int]]);
            }
            i = i + 1;
        }
        proof {
            assert(cursors@.subrange(0, cursors@.len() as int) =~= cursors@);
        }
        let to = self.write_cursors.len();
        self.write.push(EditorEvent::FixCursors { view_handle, cursors: EditorEventCursors { from, to } });
    }

    /// Starts the next generation: what was written becomes readable, and writing starts
    /// empty.
    pub fn flip(&mut self)
        ensures
            final(self).read == old(self).write,
            final(self).read_cursors == old(self).write_cursors,
            final(self).write@.len() == 0,
            final(self).write_cursors@.len() == 0,
    {
        std::mem::swap(&mut self.read, &mut self.write);
        std::mem::swap(&mut self.read_cursors, &mut self.write_cursors);
        self.write.clear();
        self.write_cursors.clear();
    }

    /// The cursors that a `FixCursors` event of the current generation refers to.
    pub fn cursors(&self, range: EditorEventCursors) -> (r: &[Cursor])
        requires
            range.from <= range.to <= self.read_cursors@.len(),
        ensures
            r@ == self.read_cursors@.subrange(range.from as int, range.to as int),
    {
        vstd::slice::slice_subrange(self.read_cursors.as_slice(), range.from, range.to)
    }
}

/// Reads the current generation by index, so that earlier events stay visible.
pub struct EditorEventIter {
    pub index: usize,
}

impl EditorEventIter {
    pub fn new() -> (r: Self)
        ensures
            r.index == 0,
    {
        EditorEventIter { index: 0 }
    }

    pub fn next(&mut self, events: &EditorEventQueue) -> (r: Option<EditorEvent>)
        ensures
            old(self).index < events.read@.len() ==> r == Some(events.read@[old(self).index as int])
                && final(self).index == old(self).index + 1,
            old(self).index >= events.read@.len() ==> r is None && final(self).index == old(self).index,
    {
        if self.index < events.read.len() {
            let e = events.read[self.index];
            self.index = self.index + 1;
            Some(e)
        } else {
            None
        }
    }
}

} // verus!
