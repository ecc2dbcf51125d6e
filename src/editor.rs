use vstd::prelude::*;

use crate::buffer_view::{
    BufferPosition,
    apply_edits_to, range_wf, BufferView, BufferViewCollection, Cursor, EditKind,
};
use crate::client::{target_of, Addressing, ClientCollection, TargetClient};
use crate::command::CommandManager;
use crate::events::{EditorEvent, EditorEventIter, EditorEventQueue};
use crate::keys::{keys_text, BufferedKeys, Key};
use crate::register::{RegisterCollection, RegisterKey};

verus! {

#[derive(Clone, Copy, PartialEq, Eq, Structural, Debug)]
pub enum EditorFlow {
    Continue,
    Suspend,
    Quit,
    QuitAll,
}

#[derive(Clone, Copy, PartialEq, Eq, Structural, Debug)]
pub enum ModeKind {
    Normal,
    Insert,
    Command,
    Picker,
    ReadLine,
    Plugin,
}

/// What a client sends.
pub enum ClientEvent {
    Key(Addressing, Key),
    Resize(u16, u16),
    Commands(Addressing, String),
    StdinInput(Addressing, Vec<u8>),
}

/// What is left to do for a client event once the core has applied it: run the pending keys
/// through the current mode, evaluate commands, or take stdin bytes, each for the client
/// that receives them; nothing when the event was dropped or is done.
pub enum ClientEventAction {
    Done,
    ExecuteKeys(TargetClient),
    EvalCommands(TargetClient, String),
    StdinInput(TargetClient, Vec<u8>),
}

/// The key map's verdict on pending keys: no mapping, the start of one (wait for more keys),
/// or a mapping to other keys.
pub enum MatchResult {
    NoMatch,
    Prefix,
    ReplaceWith(Vec<Key>),
}

/// Where a batch of keys stands after a step: the current mode is to run again on the keys
/// left, or the batch is over with this flow.
#[derive(Clone, Copy, PartialEq, Eq, Structural, Debug)]
pub enum KeyBatch {
    RunMode,
    Finished(EditorFlow),
}

/// A view as values: its buffer and its cursors.
pub open spec fn view_model(v: BufferView) -> (usize, Seq<Cursor>) {
    (v.buffer_handle, v.cursors@)
}

pub open spec fn views_model(vs: Seq<BufferView>) -> Seq<(usize, Seq<Cursor>)> {
    vs.map_values(|v: BufferView| view_model(v))
}

/// The views left once buffer `handle` is closed: those of other buffers, in order.
pub open spec fn drop_views(views: Seq<(usize, Seq<Cursor>)>, handle: usize) -> Seq<(usize, Seq<Cursor>)>
    decreases views.len(),
{
    if views.len() == 0 {
        Seq::empty()
    } else {
        drop_views(views.drop_last(), handle) + if views.last().0 == handle {
            Seq::empty()
        } else {
            seq![views.last()]
        }
    }
}

/// `p` moved into a buffer whose lines have the lengths `lines`: onto its last line at most,
/// and onto that line's end at most; onto the start when there are no lines.
pub open spec fn saturate(p: BufferPosition, lines: Seq<usize>) -> BufferPosition {
    if lines.len() == 0 {
        BufferPosition { line_index: 0, column_byte_index: 0 }
    } else {
        let line = if p.line_index < lines.len() { p.line_index as int } else { lines.len() - 1 };
        BufferPosition {
            line_index: line as usize,
            column_byte_index: if p.column_byte_index <= lines[line] { p.column_byte_index } else { lines[line] },
        }
    }
}

pub open spec fn saturate_cursor(c: Cursor, lines: Seq<usize>) -> Cursor {
    Cursor { anchor: saturate(c.anchor, lines), position: saturate(c.position, lines) }
}

/// The line lengths of buffer `handle`; none for an unknown buffer.
pub open spec fn lines_of(buffers: Seq<Vec<usize>>, handle: usize) -> Seq<usize> {
    if handle < buffers.len() {
        buffers[handle as int]@
    } else {
        Seq::empty()
    }
}

/// The views after one event: every view of an edited buffer has each cursor shifted; a
/// cursor fix replaces the cursors of its view with those stored beside the event (`stored`),
/// each moved into that view's buffer (`buffers` holds each buffer's line lengths); other
/// events leave the views alone.
pub open spec fn react(views: Seq<(usize, Seq<Cursor>)>, e: EditorEvent, stored: Seq<Cursor>, buffers: Seq<Vec<usize>>) -> Seq<(usize, Seq<Cursor>)> {
    match e {
        EditorEvent::BufferInsertText { handle, range } => shift_views(views, handle, seq![(EditKind::Insert, range)]),
        EditorEvent::BufferDeleteText { handle, range } => shift_views(views, handle, seq![(EditKind::Remove, range)]),
        EditorEvent::BufferClose { handle } => drop_views(views, handle),
        EditorEvent::FixCursors { view_handle, cursors } => if view_handle < views.len() && cursors.from
            <= cursors.to <= stored.len() {
            views.update(
                view_handle as int,
                (views[view_handle as int].0, stored.subrange(cursors.from as int, cursors.to as int).map_values(
                    |c: Cursor| saturate_cursor(c, lines_of(buffers, views[view_handle as int].0)),
                )),
            )
        } else {
            views
        },
        _ => views,
    }
}

pub open spec fn shift_views(
    views: Seq<(usize, Seq<Cursor>)>,
    handle: usize,
    edits: Seq<(EditKind, crate::buffer_view::BufferRange)>,
) -> Seq<(usize, Seq<Cursor>)> {
    views.map_values(
        |v: (usize, Seq<Cursor>)|
            if v.0 == handle {
                (v.0, v.1.map_values(|c: Cursor| apply_edits_to(c, edits)))
            } else {
                v
            },
    )
}

/// The views after reacting to each event of a generation, in order.
pub open spec fn react_all(views: Seq<(usize, Seq<Cursor>)>, events: Seq<EditorEvent>, stored: Seq<Cursor>, buffers: Seq<Vec<usize>>) -> Seq<(usize, Seq<Cursor>)>
    decreases events.len(),
{
    if events.len() == 0 {
        views
    } else {
        react(react_all(views, events.drop_last(), stored, buffers), events.last(), stored, buffers)
    }
}

/// Every edit event carries a well-formed range.
pub open spec fn events_wf(events: Seq<EditorEvent>) -> bool {
    forall|i: int| 0 <= i < events.len() ==> match #[trigger] events[i] {
        EditorEvent::BufferInsertText { range, .. } => range_wf(range),
        EditorEvent::BufferDeleteText { range, .. } => range_wf(range),
        _ => true,
    }
}

/// The state the core keeps across input batches.
pub struct Editor {
    pub current_directory: String,
    pub mode: ModeKind,
    pub plugin_handle: Option<usize>,
    pub buffer_views: BufferViewCollection,
    pub buffered_keys: BufferedKeys,
    pub recording_macro: Option<RegisterKey>,
    pub registers: RegisterCollection,
    pub commands: CommandManager,
    pub events: EditorEventQueue,
}

impl Editor {
    pub fn new(current_directory: String) -> (r: Self)
        ensures
            r.current_directory == current_directory,
            r.mode == ModeKind::Normal,
            r.buffered_keys.0@.len() == 0,
            r.recording_macro is None,
            r.registers.wf(),
            r.commands.wf(),
            r.events.read@.len() == 0,
            r.events.write@.len() == 0,
            r.buffer_views.buffer_views@.len() == 0,
    {
        Editor {
            current_directory,
            mode: ModeKind::Normal,
            plugin_handle: None,
            buffer_views: BufferViewCollection::new(),
            buffered_keys: BufferedKeys::new(),
            recording_macro: None,
            registers: RegisterCollection::new(),
            commands: CommandManager::new(),
            events: EditorEventQueue::new(),
        }
    }

    pub fn enter_mode(&mut self, next: ModeKind)
        ensures
            final(self).mode == next,
            final(self).buffered_keys == old(self).buffered_keys,
            final(self).events == old(self).events,
            final(self).recording_macro == old(self).recording_macro,
            final(self).buffer_views == old(self).buffer_views,
            final(self).plugin_handle == old(self).plugin_handle,
            final(self).registers == old(self).registers,
    {
        self.mode = next;
    }

    pub fn enter_plugin_mode(&mut self, plugin_handle: usize)
        ensures
            final(self).mode == ModeKind::Plugin,
            final(self).plugin_handle == Some(plugin_handle),
    {
        self.enter_mode(ModeKind::Plugin);
        self.plugin_handle = Some(plugin_handle);
    }

    pub fn on_idle(&mut self)
        ensures
            final(self).events.write@ == old(self).events.write@.push(EditorEvent::Idle),
            final(self).events.read == old(self).events.read,
    {
        self.events.enqueue(EditorEvent::Idle);
    }

    /// Takes a key from `sender`, addressed to itself or to the focused client. Returns the
    /// client that receives it, or `None` when it is dropped. When focus moves to that client,
    /// pending keys and a macro being recorded are dropped and the mode resets first.
    pub fn on_key_event(
        &mut self,
        clients: &mut ClientCollection,
        sender: TargetClient,
        addressing: Addressing,
        key: Key,
    ) -> (r: Option<TargetClient>)
        requires
            old(clients).wf(),
            old(clients).has(sender),
        ensures
            final(clients).wf(),
            r == match addressing {
                Addressing::Sender => Some(sender),
                Addressing::Focused => old(clients).focused,
            },
            r is None ==> final(self).buffered_keys == old(self).buffered_keys && final(clients).focused
                == old(clients).focused,
            r matches Some(t) ==> {
                let changed = old(clients).focused != Some(t);
                &&& final(clients).focused == Some(t)
                &&& final(self).buffered_keys.0@ == if changed {
                    seq![key]
                } else {
                    old(self).buffered_keys.0@.push(key)
                }
                &&& changed ==> final(self).recording_macro is None && final(self).mode == ModeKind::Normal
                &&& !changed ==> final(self).recording_macro == old(self).recording_macro && final(self).mode
                    == old(self).mode
            },
    {
        let target = match target_of(sender, addressing, clients.focused_client()) {
            Some(t) => t,
            None => {
                return None;
            },
        };
        if clients.focus_client(target) {
            self.recording_macro = None;
            self.buffered_keys.0.clear();
            self.enter_mode(ModeKind::Normal);
        }
        let ghost before = self.buffered_keys.0@;
        self.buffered_keys.0.push(key);
        proof {
            if before.len() == 0 {
                assert(self.buffered_keys.0@ =~= seq![key]);
            }
        }
        Some(target)
    }

    /// Applies an event from client `sender`: keys are buffered for their target (see
    /// `on_key_event`), a resize sets the sender's viewport, and commands or stdin bytes are
    /// handed on for their target. Events for the focused client are dropped when no client
    /// has focus.
    pub fn on_client_event(&mut self, clients: &mut ClientCollection, sender: TargetClient, event: ClientEvent) -> (r:
        ClientEventAction)
        requires
            old(clients).wf(),
            old(clients).has(sender),
        ensures
            final(clients).wf(),
            match event {
                ClientEvent::Key(addressing, key) => match (match addressing {
                    Addressing::Sender => Some(sender),
                    Addressing::Focused => old(clients).focused,
                }) {
                    Some(t) => {
                        let changed = old(clients).focused != Some(t);
                        &&& r matches ClientEventAction::ExecuteKeys(u) && u == t
                        &&& final(clients).focused == Some(t)
                        &&& final(self).buffered_keys.0@ == if changed {
                            seq![key]
                        } else {
                            old(self).buffered_keys.0@.push(key)
                        }
                        &&& changed ==> final(self).recording_macro is None && final(self).mode == ModeKind::Normal
                        &&& !changed ==> final(self).recording_macro == old(self).recording_macro
                            && final(self).mode == old(self).mode
                    },
                    None => r is Done && final(self).buffered_keys == old(self).buffered_keys
                        && final(clients).focused == old(clients).focused,
                },
                ClientEvent::Resize(width, height) => r is Done && final(clients).focused == old(clients).focused
                    && match sender {
                    TargetClient::Local => final(clients).local.viewport_size == (width, height),
                    TargetClient::Remote(h) => final(clients).remotes@[h.0 as int] matches Some(c)
                        && c.viewport_size == (width, height),
                },
                ClientEvent::Commands(addressing, text) => match (match addressing {
                    Addressing::Sender => Some(sender),
                    Addressing::Focused => old(clients).focused,
                }) {
                    Some(t) => r matches ClientEventAction::EvalCommands(u, c) && u == t && c == text,
                    None => r is Done,
                },
                ClientEvent::StdinInput(addressing, bytes) => match (match addressing {
                    Addressing::Sender => Some(sender),
                    Addressing::Focused => old(clients).focused,
                }) {
                    Some(t) => r matches ClientEventAction::StdinInput(u, b) && u == t && b == bytes,
                    None => r is Done,
                },
            },
    {
        match event {
            ClientEvent::Key(addressing, key) => match self.on_key_event(clients, sender, addressing, key) {
                Some(target) => ClientEventAction::ExecuteKeys(target),
                None => ClientEventAction::Done,
            },
            ClientEvent::Resize(width, height) => {
                let mut client = match clients.get(sender) {
                    Some(c) => *c,
                    None => {
                        return ClientEventAction::Done;
                    },
                };
                client.viewport_size = (width, height);
                clients.get_mut(sender, client);
                ClientEventAction::Done
            },
            ClientEvent::Commands(addressing, text) => match target_of(sender, addressing, clients.focused_client()) {
                Some(target) => ClientEventAction::EvalCommands(target, text),
                None => ClientEventAction::Done,
            },
            ClientEvent::StdinInput(addressing, bytes) => match target_of(sender, addressing, clients.focused_client()) {
                Some(target) => ClientEventAction::StdinInput(target, bytes),
                None => ClientEventAction::Done,
            },
        }
    }

    /// Applies the key map's verdict on the keys from `start`: a mapping replaces them.
    /// Returns false when the keys are the start of a mapping and more must come first.
    pub fn apply_key_match(&mut self, start: usize, result: MatchResult) -> (r: bool)
        requires
            start <= old(self).buffered_keys.0@.len(),
        ensures
            match result {
                MatchResult::NoMatch => r && final(self).buffered_keys.0@ == old(self).buffered_keys.0@,
                MatchResult::Prefix => !r && final(self).buffered_keys.0@ == old(self).buffered_keys.0@,
                MatchResult::ReplaceWith(keys) => r && final(self).buffered_keys.0@
                    == old(self).buffered_keys.0@.subrange(0, start as int) + keys@,
            },
            final(self).recording_macro == old(self).recording_macro,
            final(self).mode == old(self).mode,
    {
        match result {
            MatchResult::NoMatch => true,
            MatchResult::Prefix => false,
            MatchResult::ReplaceWith(keys) => {
                self.buffered_keys.0.truncate(start);
                let ghost base = self.buffered_keys.0@;
                let mut i: usize = 0;
                while i < keys.len()
                    invariant
                        i <= keys@.len(),
                        base == old(self).buffered_keys.0@.subrange(0, start as int),
                        self.buffered_keys.0@ == base + keys@.subrange(0, i as int),
                        self.recording_macro == old(self).recording_macro,
                        self.mode == old(self).mode,
                    decreases keys@.len() - i,
                {
                    self.buffered_keys.0.push(keys[i]);
                    proof {
                        assert(self.buffered_keys.0@ =~= base + keys@.subrange(0, i + 1));
                    }
                    i = i + 1;
                }
                proof {
                    assert(keys@.subrange(0, keys@.len() as int) =~= keys@);
                }
                true
            },
        }
    }

    /// After a mode consumed the keys `from..to`, appends how they are written to the register
    /// being recorded, if any.
    pub fn record_consumed_keys(&mut self, from: usize, to: usize)
        requires
            from <= to <= old(self).buffered_keys.0@.len(),
            old(self).registers.wf(),
            old(self).recording_macro matches Some(k) ==> k.0 < 128,
        ensures
            final(self).registers.wf(),
            final(self).buffered_keys == old(self).buffered_keys,
            final(self).mode == old(self).mode,
            final(self).recording_macro == old(self).recording_macro,
            match old(self).recording_macro {
                Some(k) => final(self).registers.text(k) == old(self).registers.text(k) + keys_text(
                    old(self).buffered_keys.0@.subrange(from as int, to as int),
                ),
                None => final(self).registers == old(self).registers,
            },
    {
        if let Some(key) = self.recording_macro {
            let keys = vstd::slice::slice_subrange(self.buffered_keys.0.as_slice(), from, to);
            self.registers.record_keys(key, keys);
        }
    }

    /// The step after the current mode read the keys `from..index` of a batch that started at
    /// `start`, and answered `answer` (`None`: it waits for more keys). To continue, the read
    /// keys are recorded into the macro being recorded, and the mode runs again while keys are
    /// left; when none are, the batch's keys are dropped. Any other flow resets the mode, drops
    /// the batch's keys and ends the batch with that flow.
    pub fn after_mode_step(&mut self, start: usize, from: usize, index: usize, answer: Option<EditorFlow>) -> (r: KeyBatch)
        requires
            start <= from <= index <= old(self).buffered_keys.0@.len(),
            old(self).registers.wf(),
            old(self).recording_macro matches Some(k) ==> k.0 < 128,
        ensures
            final(self).registers.wf(),
            match answer {
                None => r == KeyBatch::Finished(EditorFlow::Continue) && final(self).buffered_keys == old(self).buffered_keys
                    && final(self).registers == old(self).registers && final(self).mode == old(self).mode,
                Some(EditorFlow::Continue) => {
                    &&& match old(self).recording_macro {
                        Some(k) => final(self).registers.text(k) == old(self).registers.text(k) + keys_text(
                            old(self).buffered_keys.0@.subrange(from as int, index as int),
                        ),
                        None => final(self).registers == old(self).registers,
                    }
                    &&& final(self).mode == old(self).mode
                    &&& if index < old(self).buffered_keys.0@.len() {
                        r == KeyBatch::RunMode && final(self).buffered_keys == old(self).buffered_keys
                    } else {
                        r == KeyBatch::Finished(EditorFlow::Continue) && final(self).buffered_keys.0@
                            == old(self).buffered_keys.0@.subrange(0, start as int)
                    }
                },
                Some(flow) => r == KeyBatch::Finished(flow) && final(self).mode == ModeKind::Normal
                    && final(self).buffered_keys.0@ == old(self).buffered_keys.0@.subrange(0, start as int)
                    && final(self).registers == old(self).registers,
            },
    {
        match answer {
            None => KeyBatch::Finished(EditorFlow::Continue),
            Some(EditorFlow::Continue) => {
                self.record_consumed_keys(from, index);
                if index < self.buffered_keys.0.len() {
                    KeyBatch::RunMode
                } else {
                    self.end_key_batch(start);
                    KeyBatch::Finished(EditorFlow::Continue)
                }
            },
            Some(flow) => {
                self.enter_mode(ModeKind::Normal);
                self.end_key_batch(start);
                KeyBatch::Finished(flow)
            },
        }
    }

    /// Ends a batch of keys that started at `start`: its keys are dropped.
    pub fn end_key_batch(&mut self, start: usize)
        ensures
            final(self).registers == old(self).registers,
            final(self).mode == old(self).mode,
            final(self).recording_macro == old(self).recording_macro,
            final(self).buffered_keys.0@ == if start < old(self).buffered_keys.0@.len() {
                old(self).buffered_keys.0@.subrange(0, start as int)
            } else {
                old(self).buffered_keys.0@
            },
    {
        self.buffered_keys.0.truncate(start);
    }

    /// Removes the views of buffer `handle`, keeping the others in order.
    fn remove_views_of(&mut self, handle: usize)
        ensures
            views_model(final(self).buffer_views.buffer_views@) == drop_views(
                views_model(old(self).buffer_views.buffer_views@),
                handle,
            ),
            final(self).events == old(self).events,
    {
        let ghost start = views_model(self.buffer_views.buffer_views@);
        let n = self.buffer_views.buffer_views.len();
        let mut kept: Vec<BufferView> = Vec::new();
        let mut j: usize = 0;
        while j < n
            invariant
                n == start.len(),
                j <= n,
                self.buffer_views.buffer_views@.len() == n,
                self.events == old(self).events,
                start == views_model(old(self).buffer_views.buffer_views@),
                forall|k: int| j <= k < n ==> view_model(#[trigger] self.buffer_views.buffer_views@[k]) == start[k],
                views_model(kept@) == drop_views(start.subrange(0, j as int), handle),
            decreases n - j,
        {
            let mut view = BufferView { buffer_handle: 0, cursors: Vec::new() };
            self.buffer_views.buffer_views.set_and_swap(j, &mut view);
            let ghost before = views_model(kept@);
            proof {
                assert(start.subrange(0, j + 1).drop_last() =~= start.subrange(0, j as int));
                assert(start.subrange(0, j + 1).last() == view_model(view));
            }
            if view.buffer_handle != handle {
                kept.push(view);
                proof {
                    assert(views_model(kept@) =~= before + seq![start[j as int]]);
                }
            } else {
                proof {
                    assert(before + Seq::<(usize, Seq<Cursor>)>::empty() =~= before);
                }
            }
            j = j + 1;
        }
        proof {
            assert(start.subrange(0, n as int) =~= start);
        }
        self.buffer_views.buffer_views = kept;
    }

    /// Shifts the cursors of every view of buffer `handle` for `edits`.
    fn shift_views_of(&mut self, handle: usize, edits: &Vec<(EditKind, crate::buffer_view::BufferRange)>)
        requires
            crate::buffer_view::edits_wf(edits@),
        ensures
            views_model(final(self).buffer_views.buffer_views@) == shift_views(
                views_model(old(self).buffer_views.buffer_views@),
                handle,
                edits@,
            ),
            final(self).events == old(self).events,
    {
        let ghost start = views_model(self.buffer_views.buffer_views@);
        let mut j: usize = 0;
        while j < self.buffer_views.buffer_views.len()
            invariant
                crate::buffer_view::edits_wf(edits@),
                self.events == old(self).events,
                j <= self.buffer_views.buffer_views@.len(),
                self.buffer_views.buffer_views@.len() == start.len(),
                start == views_model(old(self).buffer_views.buffer_views@),
                forall|k: int| j <= k < start.len() ==> view_model(#[trigger] self.buffer_views.buffer_views@[k]) == start[k],
                forall|k: int| 0 <= k < j ==> view_model(#[trigger] self.buffer_views.buffer_views@[k])
                    == shift_views(start, handle, edits@)[k],
            decreases start.len() - j,
        {
            if self.buffer_views.buffer_views[j].buffer_handle == handle {
                let mut view = BufferView { buffer_handle: 0, cursors: Vec::new() };
                self.buffer_views.buffer_views.set_and_swap(j, &mut view);
                let ghost before = view;
                view.shift_cursors(edits);
                proof {
                    assert(view.cursors@ =~= before.cursors@.map_values(|c: Cursor| apply_edits_to(c, edits@)));
                }
                self.buffer_views.buffer_views.set(j, view);
            }
            j = j + 1;
        }
        proof {
            assert(views_model(self.buffer_views.buffer_views@) =~= shift_views(start, handle, edits@));
        }
    }

    /// Drains the events: each generation is read in order, and the views of an edited
    /// buffer follow the edit. Reacting enqueues nothing, so one generation drains it all.
    pub fn trigger_event_handlers(&mut self, buffers: &Vec<Vec<usize>>)
        requires
            events_wf(old(self).events.write@),
        ensures
            views_model(final(self).buffer_views.buffer_views@) == react_all(
                views_model(old(self).buffer_views.buffer_views@),
                old(self).events.write@,
                old(self).events.write_cursors@,
                buffers@,
            ),
            final(self).events.read@.len() == 0,
            final(self).events.write@.len() == 0,
    {
        self.events.flip();
        let ghost generation = self.events.read@;
        let ghost start = views_model(self.buffer_views.buffer_views@);
        let mut events = EditorEventIter::new();
        while events.index < self.events.read.len()
            invariant
                generation == old(self).events.write@,
                self.events.read@ == generation,
                self.events.write@.len() == 0,
                events.index <= generation.len(),
                events_wf(generation),
                start == views_model(old(self).buffer_views.buffer_views@),
                self.events.read_cursors@ == old(self).events.write_cursors@,
                views_model(self.buffer_views.buffer_views@) == react_all(
                    start,
                    generation.subrange(0, events.index as int),
                    old(self).events.write_cursors@,
                    buffers@,
                ),
            decreases generation.len() - events.index,
        {
            let ghost i = events.index as int;
            let event = match events.next(&self.events) {
                Some(event) => event,
                None => EditorEvent::Idle,
            };
            proof {
                assert(generation.subrange(0, i + 1).drop_last() =~= generation.subrange(0, i));
                assert(generation.subrange(0, i + 1).last() == generation[i]);
            }
            match event {
                EditorEvent::BufferInsertText { handle, range } => {
                    let mut edits = Vec::new();
                    edits.push((EditKind::Insert, range));
                    proof {
                        assert(edits@ =~= seq![(EditKind::Insert, range)]);
                    }
                    self.shift_views_of(handle, &edits);
                },
                EditorEvent::BufferDeleteText { handle, range } => {
                    let mut edits = Vec::new();
                    edits.push((EditKind::Remove, range));
                    proof {
                        assert(edits@ =~= seq![(EditKind::Remove, range)]);
                    }
                    self.shift_views_of(handle, &edits);
                },
                EditorEvent::BufferClose { handle } => {
                    self.remove_views_of(handle);
                },
                EditorEvent::FixCursors { view_handle, cursors } => {
                    if view_handle < self.buffer_views.buffer_views.len() && cursors.from <= cursors.to
                        && cursors.to <= self.events.read_cursors.len() {
                        let stored = self.events.cursors(cursors);
                        let ghost before = views_model(self.buffer_views.buffer_views@);
                        let handle = self.buffer_views.buffer_views[view_handle].buffer_handle;
                        let empty: Vec<usize> = Vec::new();
                        let lines = if handle < buffers.len() { &buffers[handle] } else { &empty };
                        let mut fixed: Vec<Cursor> = Vec::new();
                        let mut k: usize = 0;
                        while k < stored.len()
                            invariant
                                k <= stored@.len(),
                                lines@ == lines_of(buffers@, handle),
                                fixed@ == stored@.subrange(0, k as int).map_values(|c: Cursor| saturate_cursor(c, lines@)),
                            decreases stored@.len() - k,
                        {
                            let c = stored[k];
                            fixed.push(Cursor { anchor: saturate_exec(c.anchor, lines), position: saturate_exec(c.position, lines) });
                            proof {
                                assert(fixed@ =~= stored@.subrange(0, k + 1).map_values(|c: Cursor| saturate_cursor(c, lines@)));
                            }
                            k = k + 1;
                        }
                        proof {
                            assert(stored@.subrange(0, stored@.len() as int) =~= stored@);
                        }
                        self.buffer_views.buffer_views.set(view_handle, BufferView { buffer_handle: handle, cursors: fixed });
                        proof {
                            assert(views_model(self.buffer_views.buffer_views@) =~= before.update(
                                view_handle as int,
                                (before[view_handle as int].0, old(self).events.write_cursors@.subrange(
                                    cursors.from as int,
                                    cursors.to as int,
                                ).map_values(|c: Cursor| saturate_cursor(c, lines_of(buffers@, before[view_handle as int].0)))),
                            ));
                        }
                    }
                },
                _ => {},
            }
        }
        proof {
            assert(generation.subrange(0, generation.len() as int) =~= generation);
        }
        self.events.flip();
    }
}

/// `p` moved into the buffer whose lines have the lengths `lines`.
pub fn saturate_exec(p: BufferPosition, lines: &Vec<usize>) -> (r: BufferPosition)
    ensures
        r == saturate(p, lines@),
{
    if lines.len() == 0 {
        return BufferPosition { line_index: 0, column_byte_index: 0 };
    }
    let line = if p.line_index < lines.len() { p.line_index } else { lines.len() - 1 };
    let len = lines[line];
    BufferPosition { line_index: line, column_byte_index: if p.column_byte_index <= len { p.column_byte_index } else { len } }
}

} // verus!
