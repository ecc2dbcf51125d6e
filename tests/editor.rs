use pepper::editor::{ClientEvent, ClientEventAction, Editor, EditorFlow, KeyBatch, MatchResult, ModeKind};
use pepper::client::margin_bottom;
use pepper::buffer_view::{BufferPosition, BufferRange, BufferView, BufferViewCollection, Cursor, EditKind};
use pepper::client::{target_of, Addressing, Client, ClientCollection, ClientTargetMap, ConnectionWithClientHandle, TargetClient};
use pepper::events::{EditorEvent, EditorEventIter, EditorEventQueue};
use pepper::keys::{push_keys_text, BufferedKeys, Key, KeyCode, KeysIterator};
use pepper::register::{RegisterCollection, RegisterKey};

fn pos(line_index: usize, column_byte_index: usize) -> BufferPosition {
    BufferPosition { line_index, column_byte_index }
}

fn at(line: usize, column: usize) -> Cursor {
    Cursor { anchor: pos(line, column), position: pos(line, column) }
}

fn key(code: KeyCode) -> Key {
    Key { code, shift: false, control: false, alt: false }
}

#[test]
fn key_parse_rolls_back_on_error() {
    let mut keys = BufferedKeys::new();
    let iter = keys.parse("ab").ok().unwrap();
    assert_eq!(0, iter.index);
    assert_eq!(2, keys.as_slice().len());
    assert!(keys.parse("x<c-a><nosuchkey>").is_err());
    assert_eq!(2, keys.as_slice().len());
    assert!(keys.parse("<esc").is_err());
    assert_eq!(2, keys.as_slice().len());
    let iter = keys.parse("<c-x><esc><lt>").ok().unwrap();
    assert_eq!(2, iter.index);
    assert_eq!(
        &[
            Key { code: KeyCode::Char('x'), shift: false, control: true, alt: false },
            key(KeyCode::Esc),
            key(KeyCode::Char('<')),
        ],
        &keys.as_slice()[2..]
    );
    let mut iter = KeysIterator { index: 4 };
    assert_eq!(key(KeyCode::Char('<')), iter.next(&keys));
    assert_eq!(key(KeyCode::Unknown), iter.next(&keys));
}

#[test]
fn recorded_macro_replays_same_keys() {
    let live = vec![
        key(KeyCode::Char('i')),
        key(KeyCode::Char('<')),
        key(KeyCode::Char(' ')),
        Key { code: KeyCode::Char('s'), shift: true, control: true, alt: true },
        Key { code: KeyCode::Char('-'), shift: false, control: true, alt: false },
        key(KeyCode::PageDown),
        key(KeyCode::Esc),
    ];
    let mut registers = RegisterCollection::new();
    let q = RegisterKey::from_char('q').unwrap();
    registers.record_keys(q, &live[..3]);
    registers.record_keys(q, &live[3..]);
    assert_eq!("i<lt><space><c-a-s-s><c--><pagedown><esc>", registers.get(q));
    let mut replay = BufferedKeys::new();
    assert!(replay.parse(registers.get(q)).is_ok());
    assert_eq!(&live[..], replay.as_slice());

    let mut text = String::new();
    push_keys_text(&mut text, &[key(KeyCode::Char('\n')), key(KeyCode::Char('é'))]);
    assert_eq!("<enter>é", text);
    assert_eq!(None, RegisterKey::from_char('é'));
}

#[test]
fn event_generations_flip() {
    let mut events = EditorEventQueue::new();
    events.enqueue(EditorEvent::Idle);
    events.enqueue_fix_cursors(3, &vec![at(1, 2), at(3, 4)]);
    let mut iter = EditorEventIter::new();
    assert_eq!(None, iter.next(&events));
    events.flip();
    events.enqueue(EditorEvent::BufferClose { handle: 1 });
    let mut iter = EditorEventIter::new();
    assert_eq!(Some(EditorEvent::Idle), iter.next(&events));
    match iter.next(&events) {
        Some(EditorEvent::FixCursors { view_handle: 3, cursors }) => {
            assert_eq!(&[at(1, 2), at(3, 4)], events.cursors(cursors));
        }
        other => panic!("unexpected {:?}", other),
    }
    assert_eq!(None, iter.next(&events));
    events.flip();
    let mut iter = EditorEventIter::new();
    assert_eq!(Some(EditorEvent::BufferClose { handle: 1 }), iter.next(&events));
    events.flip();
    assert_eq!(None, EditorEventIter::new().next(&events));
}

#[test]
fn sibling_views_follow_edits() {
    let mut views = BufferViewCollection::new();
    views.push(BufferView { buffer_handle: 7, cursors: vec![at(0, 2)] });
    views.push(BufferView { buffer_handle: 7, cursors: vec![at(0, 5), at(2, 1), at(0, 1)] });
    views.push(BufferView { buffer_handle: 8, cursors: vec![at(0, 5)] });
    // three bytes inserted at column 2 of line 0, through view 0
    let inserted = BufferRange { from: pos(0, 2), to: pos(0, 5) };
    views.insert_text(Some(0), &vec![inserted]);
    assert_eq!(vec![at(0, 5)], views.buffer_views[0].cursors);
    assert_eq!(vec![at(0, 8), at(2, 1), at(0, 1)], views.buffer_views[1].cursors);
    assert_eq!(vec![at(0, 5)], views.buffer_views[2].cursors);

    // a line break inserted at the start of line 0
    views.insert_text(Some(0), &vec![BufferRange { from: pos(0, 0), to: pos(1, 0) }]);
    assert_eq!(vec![at(1, 8), at(3, 1), at(1, 1)], views.buffer_views[1].cursors);

    // remove a selection spanning line 1 columns 0..4 through view 0
    views.buffer_views[0].cursors = vec![Cursor { anchor: pos(1, 4), position: pos(1, 0) }];
    let removed = views.remove_in_selection(Some(0));
    assert_eq!(vec![BufferRange { from: pos(1, 0), to: pos(1, 4) }], removed);
    assert_eq!(vec![at(1, 0)], views.buffer_views[0].cursors);
    assert_eq!(vec![at(1, 4), at(3, 1), at(1, 0)], views.buffer_views[1].cursors);
    assert_eq!(vec![at(0, 5)], views.buffer_views[2].cursors);

    views.apply_edits(1, &vec![(EditKind::Insert, BufferRange { from: pos(3, 0), to: pos(3, 2) })]);
    assert_eq!(vec![at(3, 2), at(3, 2), at(3, 2)], views.buffer_views[1].cursors);
    assert_eq!(vec![at(1, 0)], views.buffer_views[0].cursors);
}

#[test]
fn cursor_moves_clamp_to_buffer() {
    let mut view = BufferView::with_handle(1);
    view.cursors = vec![Cursor { anchor: pos(0, 0), position: pos(1, 3) }];
    let lines = vec![4, 2, 9];
    view.move_cursors(&lines, 1, 10);
    assert_eq!(pos(2, 9), view.cursors[0].position);
    view.move_cursors(&lines, -5, -1);
    assert_eq!(pos(0, 4), view.cursors[0].position);
    view.swap_cursor_position_and_anchor();
    assert_eq!(pos(0, 0), view.cursors[0].position);
    view.collapse_cursor_anchors();
    assert_eq!(Cursor { anchor: pos(0, 0), position: pos(0, 0) }, view.cursors[0]);
}

#[test]
fn clients_focus_and_targets() {
    let mut clients = ClientCollection::new();
    let remote = ConnectionWithClientHandle::from_index(2);
    clients.on_client_joined(remote);
    let target = TargetClient::Remote(remote);
    assert!(clients.get(target).is_some());
    assert!(clients.get(TargetClient::Remote(ConnectionWithClientHandle(1))).is_none());
    assert!(clients.focus_client(target));
    assert!(!clients.focus_client(target));
    assert_eq!(vec![TargetClient::Local, target], clients.client_refs().iter().map(|r| r.target).collect::<Vec<_>>());
    assert_eq!(Some(target), target_of(TargetClient::Local, Addressing::Focused, clients.focused_client()));
    assert_eq!(Some(TargetClient::Local), target_of(TargetClient::Local, Addressing::Sender, clients.focused_client()));
    clients.on_client_left(remote);
    assert_eq!(None, clients.focused_client());
    assert_eq!(None, target_of(TargetClient::Local, Addressing::Focused, clients.focused_client()));
    assert_eq!(3, TargetClient::from_index(3).into_index());

    let mut map = ClientTargetMap::new();
    map.on_client_joined(remote);
    map.map(TargetClient::Local, target);
    assert_eq!(target, map.get(TargetClient::Local));
    map.map(TargetClient::Local, TargetClient::Remote(ConnectionWithClientHandle(9)));
    assert_eq!(TargetClient::Local, map.get(TargetClient::Local));
    map.map(TargetClient::Local, target);
    map.on_client_left(remote);
    assert_eq!(TargetClient::Local, map.get(TargetClient::Local));
}

#[test]
fn client_view_scrolls_to_cursor() {
    let mut client = Client::new();
    client.viewport_size = (80, 11);
    client.update_view(25, 3, true);
    assert_eq!(7, client.height);
    assert_eq!(19, client.scroll);
    client.update_view(2, 3, false);
    assert_eq!(10, client.height);
    assert_eq!(2, client.scroll);
    client.update_view(5, 0, false);
    assert_eq!(2, client.scroll);
}

#[test]
fn focus_change_clears_pending_input() {
    let mut editor = Editor::new(String::from("/work"));
    let mut clients = ClientCollection::new();
    let remote = ConnectionWithClientHandle::from_index(0);
    clients.on_client_joined(remote);
    editor.enter_mode(ModeKind::Insert);
    editor.recording_macro = RegisterKey::from_char('q');
    assert_eq!(None, editor.on_key_event(&mut clients, TargetClient::Local, Addressing::Focused, key(KeyCode::Esc)));
    let local = editor.on_key_event(&mut clients, TargetClient::Local, Addressing::Sender, key(KeyCode::Char('a')));
    assert_eq!(Some(TargetClient::Local), local);
    assert_eq!(ModeKind::Normal, editor.mode);
    assert_eq!(None, editor.recording_macro);
    editor.enter_mode(ModeKind::Insert);
    editor.on_key_event(&mut clients, TargetClient::Remote(remote), Addressing::Focused, key(KeyCode::Char('b')));
    assert_eq!(2, editor.buffered_keys.as_slice().len());
    assert_eq!(ModeKind::Insert, editor.mode);
    editor.on_key_event(&mut clients, TargetClient::Remote(remote), Addressing::Sender, key(KeyCode::Char('c')));
    assert_eq!(&[key(KeyCode::Char('c'))], editor.buffered_keys.as_slice());
}

#[test]
fn drained_events_move_views() {
    let mut editor = Editor::new(String::new());
    let buffers: Vec<Vec<usize>> = vec![vec![9], vec![9, 3], vec![9]];
    editor.buffer_views.push(BufferView { buffer_handle: 1, cursors: vec![at(0, 4)] });
    editor.buffer_views.push(BufferView { buffer_handle: 2, cursors: vec![at(0, 4)] });
    editor.events.enqueue(EditorEvent::BufferInsertText { handle: 1, range: BufferRange { from: pos(0, 0), to: pos(0, 2) } });
    editor.on_idle();
    editor.events.enqueue(EditorEvent::BufferDeleteText { handle: 1, range: BufferRange { from: pos(0, 1), to: pos(0, 3) } });
    editor.trigger_event_handlers(&buffers);
    assert_eq!(vec![at(0, 4)], editor.buffer_views.buffer_views[0].cursors);
    assert_eq!(vec![at(0, 4)], editor.buffer_views.buffer_views[1].cursors);
    editor.events.enqueue(EditorEvent::BufferDeleteText { handle: 2, range: BufferRange { from: pos(0, 0), to: pos(0, 3) } });
    editor.trigger_event_handlers(&buffers);
    assert_eq!(vec![at(0, 1)], editor.buffer_views.buffer_views[1].cursors);
    editor.events.enqueue_fix_cursors(0, &vec![at(5, 5), at(0, 6), at(1, 2)]);
    editor.trigger_event_handlers(&buffers);
    assert_eq!(vec![at(1, 3), at(0, 6), at(1, 2)], editor.buffer_views.buffer_views[0].cursors);
    editor.events.enqueue(EditorEvent::BufferClose { handle: 1 });
    editor.trigger_event_handlers(&buffers);
    assert_eq!(1, editor.buffer_views.len());
    assert_eq!(2, editor.buffer_views.buffer_views[0].buffer_handle);
    let mut iter = EditorEventIter::new();
    assert_eq!(None, iter.next(&editor.events));
}

#[test]
fn client_events_are_routed() {
    let mut editor = Editor::new(String::new());
    let mut clients = ClientCollection::new();
    let remote = TargetClient::Remote(ConnectionWithClientHandle::from_index(1));
    clients.on_client_joined(ConnectionWithClientHandle::from_index(1));
    assert!(matches!(
        editor.on_client_event(&mut clients, remote, ClientEvent::Resize(100, 40)),
        ClientEventAction::Done
    ));
    assert_eq!((100, 40), clients.get(remote).unwrap().viewport_size);
    assert!(matches!(
        editor.on_client_event(&mut clients, remote, ClientEvent::Commands(Addressing::Focused, "q".to_string())),
        ClientEventAction::Done
    ));
    match editor.on_client_event(&mut clients, remote, ClientEvent::Key(Addressing::Sender, key(KeyCode::Esc))) {
        ClientEventAction::ExecuteKeys(target) => assert_eq!(remote, target),
        _ => panic!("keys not routed"),
    }
    match editor.on_client_event(&mut clients, TargetClient::Local, ClientEvent::Commands(Addressing::Focused, "q".to_string())) {
        ClientEventAction::EvalCommands(target, text) => {
            assert_eq!(remote, target);
            assert_eq!("q", text);
        }
        _ => panic!("commands not routed"),
    }
    match editor.on_client_event(&mut clients, TargetClient::Local, ClientEvent::StdinInput(Addressing::Sender, vec![1, 2])) {
        ClientEventAction::StdinInput(target, bytes) => {
            assert_eq!(TargetClient::Local, target);
            assert_eq!(vec![1, 2], bytes);
        }
        _ => panic!("stdin not routed"),
    }
}

#[test]
fn key_batches_follow_key_map() {
    let mut editor = Editor::new(String::new());
    assert!(editor.buffered_keys.parse("ab").is_ok());
    assert!(!editor.apply_key_match(0, MatchResult::Prefix));
    assert!(editor.apply_key_match(0, MatchResult::NoMatch));
    assert!(editor.apply_key_match(1, MatchResult::ReplaceWith(vec![key(KeyCode::Esc), key(KeyCode::Char('x'))])));
    assert_eq!(&[key(KeyCode::Char('a')), key(KeyCode::Esc), key(KeyCode::Char('x'))], editor.buffered_keys.as_slice());
    editor.recording_macro = RegisterKey::from_char('m');
    editor.record_consumed_keys(1, 3);
    assert_eq!("<esc>x", editor.registers.get(RegisterKey::from_char('m').unwrap()));
    editor.end_key_batch(0);
    assert!(editor.buffered_keys.as_slice().is_empty());
}

#[test]
fn key_batch_steps() {
    let mut editor = Editor::new(String::new());
    assert!(editor.buffered_keys.parse("abc").is_ok());
    editor.recording_macro = RegisterKey::from_char('r');
    assert_eq!(KeyBatch::RunMode, editor.after_mode_step(0, 0, 1, Some(EditorFlow::Continue)));
    assert_eq!("a", editor.registers.get(RegisterKey::from_char('r').unwrap()));
    assert_eq!(KeyBatch::Finished(EditorFlow::Continue), editor.after_mode_step(0, 1, 2, None));
    assert_eq!(3, editor.buffered_keys.as_slice().len());
    assert_eq!(KeyBatch::Finished(EditorFlow::Continue), editor.after_mode_step(0, 1, 3, Some(EditorFlow::Continue)));
    assert!(editor.buffered_keys.as_slice().is_empty());
    assert_eq!("abc", editor.registers.get(RegisterKey::from_char('r').unwrap()));
    assert!(editor.buffered_keys.parse("xy").is_ok());
    editor.enter_mode(ModeKind::Insert);
    assert_eq!(KeyBatch::Finished(EditorFlow::Quit), editor.after_mode_step(0, 0, 1, Some(EditorFlow::Quit)));
    assert_eq!(ModeKind::Normal, editor.mode);
    assert!(editor.buffered_keys.as_slice().is_empty());
}

#[test]
fn scroll_margin() {
    assert_eq!(4, margin_bottom(5, 2, true));
    assert_eq!(6, margin_bottom(5, 6, true));
    assert_eq!(0, margin_bottom(0, 0, true));
    assert_eq!(0, margin_bottom(5, 6, false));
}
