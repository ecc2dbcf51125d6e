use vstd::prelude::*;

verus! {

/// Identifies a connected client by its slot.
#[derive(Clone, Copy, PartialEq, Eq, Structural, Debug)]
pub struct ClientHandle(pub usize);

/// A connection of a remote client, by its slot.
#[derive(Clone, Copy, PartialEq, Eq, Structural, Debug)]
pub struct ConnectionWithClientHandle(pub usize);

impl ConnectionWithClientHandle {
    pub fn from_index(index: usize) -> (r: Self)
        ensures
            r.0 == index,
    {
        ConnectionWithClientHandle(index)
    }

    pub fn into_index(self) -> (r: usize)
        ensures
            r == self.0,
    {
        self.0
    }
}

/// The client an operation goes to: the local one, or a remote one.
#[derive(Clone, Copy, PartialEq, Eq, Structural, Debug)]
pub enum TargetClient {
    Local,
    Remote(ConnectionWithClientHandle),
}

/// Index 0 is the local client; index `i + 1` is remote slot `i`.
pub open spec fn target_index(t: TargetClient) -> int {
    match t {
        TargetClient::Local => 0,
        TargetClient::Remote(h) => h.0 + 1,
    }
}

impl TargetClient {
    pub fn from_index(index: usize) -> (r: Self)
        ensures
            target_index(r) == index,
    {
        if index == 0 {
            TargetClient::Local
        } else {
            TargetClient::Remote(ConnectionWithClientHandle::from_index(index - 1))
        }
    }

    pub fn into_index(self) -> (r: usize)
        requires
            target_index(self) <= usize::MAX,
        ensures
            r == target_index(self),
    {
        match self {
            TargetClient::Local => 0,
            TargetClient::Remote(handle) => handle.into_index() + 1,
        }
    }
}

/// How the main cursor's line keeps in view: the first visible line after the view shows
/// `height` lines starting at `scroll`.
pub open spec fn scroll_to_show(scroll: int, height: int, line: int) -> int {
    if line < scroll {
        line
    } else if line >= scroll + height {
        line + 1 - height
    } else {
        scroll
    }
}

pub open spec fn saturating_sub(a: int, b: int) -> int {
    if a > b {
        a - b
    } else {
        0
    }
}

#[derive(Clone, Copy, Debug)]
pub struct Client {
    pub has_ui: bool,
    pub current_buffer_view_handle: Option<usize>,
    pub viewport_size: (u16, u16),
    pub scroll: usize,
    pub height: u16,
}

impl Client {
    pub fn new() -> (r: Self)
        ensures
            r == Client::new_spec(),
            !r.has_ui,
            r.current_buffer_view_handle is None,
            r.viewport_size == (0u16, 0u16),
            r.scroll == 0,
            r.height == 0,
    {
        Client {
            has_ui: false,
            current_buffer_view_handle: None,
            viewport_size: (0, 0),
            scroll: 0,
            height: 0,
        }
    }

    /// Fits the view to the viewport, one line under the status bar, less the picker when
    /// focused, and scrolls so that `main_cursor_line` is visible.
    pub fn update_view(&mut self, main_cursor_line: usize, picker_height: u16, has_focus: bool)
        requires
            main_cursor_line < usize::MAX,
        ensures
            final(self).height == saturating_sub(
                saturating_sub(old(self).viewport_size.1 as int, 1),
                if has_focus { picker_height as int } else { 0 },
            ),
            final(self).scroll == scroll_to_show(
                old(self).scroll as int,
                final(self).height as int,
                main_cursor_line as int,
            ),
            final(self).viewport_size == old(self).viewport_size,
            final(self).has_ui == old(self).has_ui,
            final(self).current_buffer_view_handle == old(self).current_buffer_view_handle,
    {
        self.height = self.viewport_size.1.saturating_sub(1);
        let picker = if has_focus {
            picker_height
        } else {
            0
        };
        self.height = self.height.saturating_sub(picker);
        let height = self.height as usize;
        let line = main_cursor_line;
        if line < self.scroll {
            self.scroll = line;
        } else if line - self.scroll >= height {
            self.scroll = line + 1 - height;
        }
    }
}

/// The slot of a remote target.
pub open spec fn remote_slot(t: TargetClient) -> int {
    match t {
        TargetClient::Local => -1,
        TargetClient::Remote(h) => h.0 as int,
    }
}

/// The lines kept free under the main cursor when scrolling: for the focused client the larger
/// of the status bar's height less one and the picker's height; none for other clients.
pub fn margin_bottom(status_bar_height: usize, picker_height: usize, has_focus: bool) -> (r: usize)
    ensures
        has_focus ==> r == if saturating_sub(status_bar_height as int, 1) >= picker_height {
            saturating_sub(status_bar_height as int, 1)
        } else {
            picker_height as int
        },
        !has_focus ==> r == 0,
{
    if !has_focus {
        return 0;
    }
    let status = status_bar_height.saturating_sub(1);
    if status >= picker_height {
        status
    } else {
        picker_height
    }
}

pub struct ClientRef<'a> {
    pub target: TargetClient,
    pub client: &'a Client,
    pub buffer: &'a Vec<u8>,
}

/// The local client, a slot for each remote one, an output buffer for each, and the focused
/// client.
pub struct ClientCollection {
    pub local: Client,
    pub remotes: Vec<Option<Client>>,
    pub local_buf: Vec<u8>,
    pub remote_bufs: Vec<Vec<u8>>,
    pub focused: Option<TargetClient>,
}

impl ClientCollection {
    pub open spec fn wf(&self) -> bool {
        &&& self.remotes@.len() <= self.remote_bufs@.len()
        &&& self.focused matches Some(TargetClient::Remote(h)) ==> h.0 < self.remotes@.len()
            && self.remotes@[h.0 as int] is Some
    }

    /// Whether `target` names a client that is here.
    pub open spec fn has(&self, target: TargetClient) -> bool {
        match target {
            TargetClient::Local => true,
            TargetClient::Remote(h) => h.0 < self.remotes@.len() && self.remotes@[h.0 as int] is Some,
        }
    }

    pub fn new() -> (r: Self)
        ensures
            r.wf(),
            r.remotes@.len() == 0,
            r.focused is None,
    {
        ClientCollection {
            local: Client::new(),
            remotes: Vec::new(),
            local_buf: Vec::new(),
            remote_bufs: Vec::new(),
            focused: None,
        }
    }

    /// Gives the joining client a fresh slot at its index.
    pub fn on_client_joined(&mut self, client_handle: ConnectionWithClientHandle)
        requires
            old(self).wf(),
            client_handle.0 < usize::MAX,
        ensures
            final(self).wf(),
            final(self).remotes@.len() == if old(self).remotes@.len() > client_handle.0 {
                old(self).remotes@.len() as int
            } else {
                client_handle.0 + 1
            },
            final(self).remotes@[client_handle.0 as int] == Some(Client::new_spec()),
            forall|i: int|
                0 <= i < final(self).remotes@.len() && i != client_handle.0 ==> #[trigger] final(self).remotes@[i]
                    == if i < old(self).remotes@.len() {
                    old(self).remotes@[i]
                } else {
                    None
                },
            final(self).focused == old(self).focused,
    {
        let index = client_handle.into_index();
        let ghost old_remotes = self.remotes@;
        while self.remotes.len() <= index
            invariant
                old(self).wf(),
                old_remotes == old(self).remotes@,
                self.remotes@.len() >= old_remotes.len(),
                self.remotes@.len() == old_remotes.len() || self.remotes@.len() <= index + 1,
                self.remote_bufs == old(self).remote_bufs,
                self.focused == old(self).focused,
                forall|i: int| 0 <= i < self.remotes@.len() ==> #[trigger] self.remotes@[i] == if i
                    < old_remotes.len() {
                    old_remotes[i]
                } else {
                    None
                },
            decreases index + 1 - self.remotes@.len(),
        {
            self.remotes.push(None);
        }
        self.remotes.set(index, Some(Client::new()));
        let ghost after_set = self.remotes@;
        while self.remote_bufs.len() <= index
            invariant
                old(self).wf(),
                self.remotes@ == after_set,
                self.focused == old(self).focused,
                after_set[index as int] == Some(Client::new_spec()),
                forall|i: int|
                    0 <= i < after_set.len() && i != index ==> #[trigger] after_set[i] == if i
                        < old_remotes.len() {
                        old_remotes[i]
                    } else {
                        None
                    },
                old_remotes == old(self).remotes@,
                self.remote_bufs@.len() >= old(self).remote_bufs@.len(),
                self.remotes@.len() == if old_remotes.len() > index {
                    old_remotes.len() as int
                } else {
                    index + 1
                },
            decreases index + 1 - self.remote_bufs@.len(),
        {
            self.remote_bufs.push(Vec::new());
        }
    }

    /// Frees the leaving client's slot, clears its output, and drops focus from it.
    pub fn on_client_left(&mut self, client_handle: ConnectionWithClientHandle)
        requires
            old(self).wf(),
        ensures
            final(self).wf(),
            final(self).remotes@.len() == old(self).remotes@.len(),
            client_handle.0 < old(self).remotes@.len() ==> final(self).remotes@ == old(
                self,
            ).remotes@.update(client_handle.0 as int, None),
            client_handle.0 >= old(self).remotes@.len() ==> final(self).remotes@ == old(self).remotes@,
            final(self).focused == if old(self).focused == Some(TargetClient::Remote(client_handle)) {
                None
            } else {
                old(self).focused
            },
    {
        let index = client_handle.into_index();
        if index < self.remotes.len() {
            self.remotes.set(index, None);
            let mut empty: Vec<u8> = Vec::new();
            self.remote_bufs.set(index, empty);
        }
        if self.focused == Some(TargetClient::Remote(client_handle)) {
            self.focused = None;
        }
    }

    pub fn get(&self, target: TargetClient) -> (r: Option<&Client>)
        ensures
            match target {
                TargetClient::Local => r == Some(&self.local),
                TargetClient::Remote(h) => if h.0 < self.remotes@.len() {
                    match self.remotes@[h.0 as int] {
                        Some(c) => r == Some(&c),
                        None => r is None,
                    }
                } else {
                    r is None
                },
            },
    {
        match target {
            TargetClient::Local => Some(&self.local),
            TargetClient::Remote(handle) => {
                let index = handle.into_index();
                if index < self.remotes.len() {
                    self.remotes[index].as_ref()
                } else {
                    None
                }
            },
        }
    }

    /// Replaces the state of client `target`, if it is here.
    pub fn get_mut(&mut self, target: TargetClient, client: Client) -> (r: bool)
        requires
            old(self).wf(),
        ensures
            final(self).wf(),
            r == old(self).has(target),
            final(self).focused == old(self).focused,
            match target {
                TargetClient::Local => final(self).local == client && final(self).remotes == old(self).remotes,
                TargetClient::Remote(h) => final(self).local == old(self).local && if r {
                    final(self).remotes@ == old(self).remotes@.update(h.0 as int, Some(client))
                } else {
                    final(self).remotes == old(self).remotes
                },
            },
    {
        match target {
            TargetClient::Local => {
                self.local = client;
                true
            },
            TargetClient::Remote(handle) => {
                let index = handle.into_index();
                if index < self.remotes.len() && self.remotes[index].is_some() {
                    self.remotes.set(index, Some(client));
                    true
                } else {
                    false
                }
            },
        }
    }

    /// The clients that are here, local first, then remotes by slot.
    pub fn client_refs(&self) -> (r: Vec<ClientRef<'_>>)
        requires
            self.wf(),
        ensures
            r@.len() >= 1,
            r@[0].target == TargetClient::Local,
            forall|k: int| 0 <= k < r@.len() ==> self.has(#[trigger] r@[k].target),
            forall|k: int| 1 <= k < r@.len() ==> #[trigger] r@[k].target is Remote,
            *r@[0].client == self.local,
            forall|k: int| 1 <= k < r@.len() ==> self.remotes@[remote_slot(#[trigger] r@[k].target)] == Some(*r@[k].client),
            forall|a: int, b: int| 1 <= a < b < r@.len() ==> remote_slot(#[trigger] r@[a].target) < remote_slot(#[trigger] r@[b].target),
            forall|i: int| 0 <= i < self.remotes@.len() && self.remotes@[i] is Some ==> exists|k: int|
                1 <= k < r@.len() && #[trigger] r@[k].target == TargetClient::Remote(ConnectionWithClientHandle(i as usize)),
    {
        let mut refs: Vec<ClientRef<'_>> = Vec::new();
        refs.push(ClientRef { target: TargetClient::Local, client: &self.local, buffer: &self.local_buf });
        let mut i: usize = 0;
        while i < self.remotes.len()
            invariant
                self.wf(),
                i <= self.remotes@.len(),
                refs@.len() >= 1,
                refs@[0].target == TargetClient::Local,
                forall|k: int| 0 <= k < refs@.len() ==> self.has(#[trigger] refs@[k].target),
                forall|k: int| 1 <= k < refs@.len() ==> #[trigger] refs@[k].target is Remote,
                *refs@[0].client == self.local,
                forall|k: int| 1 <= k < refs@.len() ==> remote_slot(#[trigger] refs@[k].target) < i,
                forall|k: int| 1 <= k < refs@.len() ==> self.remotes@[remote_slot(#[trigger] refs@[k].target)] == Some(*refs@[k].client),
                forall|a: int, b: int| 1 <= a < b < refs@.len() ==> remote_slot(#[trigger] refs@[a].target) < remote_slot(#[trigger] refs@[b].target),
                forall|j: int| 0 <= j < i && self.remotes@[j] is Some ==> exists|k: int|
                    1 <= k < refs@.len() && #[trigger] refs@[k].target == TargetClient::Remote(ConnectionWithClientHandle(j as usize)),
            decreases self.remotes@.len() - i,
        {
            let ghost before = refs@;
            if let Some(client) = &self.remotes[i] {
                let target = TargetClient::Remote(ConnectionWithClientHandle(i));
                refs.push(ClientRef { target, client, buffer: &self.remote_bufs[i] });
                proof {
                    assert(refs@[refs@.len() - 1].target == target);
                    assert forall|j: int| 0 <= j < i + 1 && self.remotes@[j] is Some implies exists|k: int|
                        1 <= k < refs@.len() && #[trigger] refs@[k].target == TargetClient::Remote(
                            ConnectionWithClientHandle(j as usize),
                        ) by {
                        if j < i {
                            let k = choose|k: int|
                                1 <= k < before.len() && #[trigger] before[k].target == TargetClient::Remote(
                                    ConnectionWithClientHandle(j as usize),
                                );
                            assert(refs@[k] == before[k]);
                        } else {
                            assert(refs@[refs@.len() - 1].target == TargetClient::Remote(
                                ConnectionWithClientHandle(j as usize),
                            ));
                        }
                    }
                }
            }
            i = i + 1;
        }
        refs
    }

    /// Focuses `target`; true when focus changed, and the caller then drops pending input.
    pub fn focus_client(&mut self, target: TargetClient) -> (r: bool)
        requires
            old(self).wf(),
            old(self).has(target),
        ensures
            final(self).wf(),
            final(self).focused == Some(target),
            r == (old(self).focused != Some(target)),
            final(self).remotes == old(self).remotes,
    {
        let changed = self.focused != Some(target);
        self.focused = Some(target);
        changed
    }

    pub fn focused_client(&self) -> (r: Option<TargetClient>)
        ensures
            r == self.focused,
    {
        self.focused
    }
}

impl Client {
    pub open spec fn new_spec() -> Client {
        Client {
            has_ui: false,
            current_buffer_view_handle: None,
            viewport_size: (0u16, 0u16),
            scroll: 0,
            height: 0,
        }
    }
}

/// Whom an event is addressed to.
#[derive(Clone, Copy, PartialEq, Eq, Structural, Debug)]
pub enum Addressing {
    Sender,
    Focused,
}

/// The client that receives an operation: the sender, or the focused client; `None` (the
/// event is dropped) when focus is asked for and nobody has it.
pub fn target_of(sender: TargetClient, addressing: Addressing, focused: Option<TargetClient>) -> (r: Option<TargetClient>)
    ensures
        addressing == Addressing::Sender ==> r == Some(sender),
        addressing == Addressing::Focused ==> r == focused,
{
    match addressing {
        Addressing::Sender => Some(sender),
        Addressing::Focused => focused,
    }
}

/// Where each client's operations are redirected.
pub struct ClientTargetMap {
    pub local_target: Option<TargetClient>,
    pub remote_targets: Vec<Option<TargetClient>>,
}

impl ClientTargetMap {
    pub fn new() -> (r: Self)
        ensures
            r.local_target is None,
            r.remote_targets@.len() == 0,
    {
        ClientTargetMap { local_target: None, remote_targets: Vec::new() }
    }

    pub fn on_client_joined(&mut self, client_handle: ConnectionWithClientHandle)
        requires
            client_handle.0 < usize::MAX,
        ensures
            final(self).local_target == old(self).local_target,
            final(self).remote_targets@.len() == if old(self).remote_targets@.len() > client_handle.0 {
                old(self).remote_targets@.len() as int
            } else {
                client_handle.0 + 1
            },
            forall|i: int| 0 <= i < final(self).remote_targets@.len() ==> #[trigger] final(self).remote_targets@[i]
                == if i < old(self).remote_targets@.len() {
                old(self).remote_targets@[i]
            } else {
                None
            },
    {
        let min_len = client_handle.into_index() + 1;
        while self.remote_targets.len() < min_len
            invariant
                self.local_target == old(self).local_target,
                old(self).remote_targets@.len() <= self.remote_targets@.len() <= min_len
                    || self.remote_targets@.len() == old(self).remote_targets@.len(),
                forall|i: int| 0 <= i < self.remote_targets@.len() ==> #[trigger] self.remote_targets@[i]
                    == if i < old(self).remote_targets@.len() {
                    old(self).remote_targets@[i]
                } else {
                    None
                },
            decreases min_len - self.remote_targets@.len(),
        {
            self.remote_targets.push(None);
        }
    }

    /// Clears the leaving client's own redirection and every redirection to it.
    pub fn on_client_left(&mut self, client_handle: ConnectionWithClientHandle)
        ensures
            final(self).local_target == if old(self).local_target == Some(TargetClient::Remote(client_handle)) {
                None
            } else {
                old(self).local_target
            },
            final(self).remote_targets@.len() == old(self).remote_targets@.len(),
            forall|i: int| 0 <= i < final(self).remote_targets@.len() ==> #[trigger] final(self).remote_targets@[i]
                == if i == client_handle.0 || old(self).remote_targets@[i] == Some(TargetClient::Remote(client_handle)) {
                None
            } else {
                old(self).remote_targets@[i]
            },
    {
        if self.local_target == Some(TargetClient::Remote(client_handle)) {
            self.local_target = None;
        }
        let mut i: usize = 0;
        while i < self.remote_targets.len()
            invariant
                self.local_target == if old(self).local_target == Some(TargetClient::Remote(client_handle)) {
                    None
                } else {
                    old(self).local_target
                },
                i <= self.remote_targets@.len(),
                self.remote_targets@.len() == old(self).remote_targets@.len(),
                forall|k: int| 0 <= k < self.remote_targets@.len() ==> #[trigger] self.remote_targets@[k]
                    == if k < i && (k == client_handle.0 || old(self).remote_targets@[k] == Some(TargetClient::Remote(client_handle))) {
                    None
                } else {
                    old(self).remote_targets@[k]
                },
            decreases self.remote_targets@.len() - i,
        {
            if i == client_handle.0 || self.remote_targets[i] == Some(TargetClient::Remote(client_handle)) {
                self.remote_targets.set(i, None);
            }
            i = i + 1;
        }
    }

    /// Redirects `from` to `to`; a redirection to an unknown remote clears it instead.
    pub fn map(&mut self, from: TargetClient, to: TargetClient)
        ensures
            ({
                let known = match to {
                    TargetClient::Local => true,
                    TargetClient::Remote(h) => h.0 < old(self).remote_targets@.len(),
                };
                let value = if known { Some(to) } else { None };
                match from {
                    TargetClient::Local => final(self).local_target == value && final(self).remote_targets
                        == old(self).remote_targets,
                    TargetClient::Remote(h) => final(self).local_target == old(self).local_target
                        && if h.0 < old(self).remote_targets@.len() {
                        final(self).remote_targets@ == old(self).remote_targets@.update(h.0 as int, value)
                    } else {
                        final(self).remote_targets == old(self).remote_targets
                    },
                }
            }),
    {
        let to = match to {
            TargetClient::Local => Some(to),
            TargetClient::Remote(handle) => {
                if handle.into_index() < self.remote_targets.len() {
                    Some(to)
                } else {
                    None
                }
            },
        };
        match from {
            TargetClient::Local => self.local_target = to,
            TargetClient::Remote(handle) => {
                let index = handle.into_index();
                if index < self.remote_targets.len() {
                    self.remote_targets.set(index, to);
                }
            },
        }
    }

    /// Where operations of `target` go: its redirection, or itself.
    pub fn get(&self, target: TargetClient) -> (r: TargetClient)
        ensures
            match target {
                TargetClient::Local => r == match self.local_target {
                    Some(t) => t,
                    None => target,
                },
                TargetClient::Remote(h) => r == if h.0 < self.remote_targets@.len() {
                    match self.remote_targets@[h.0 as int] {
                        Some(t) => t,
                        None => target,
                    }
                } else {
                    target
                },
            },
    {
        match target {
            TargetClient::Local => match self.local_target {
                Some(t) => t,
                None => target,
            },
            TargetClient::Remote(handle) => {
                let index = handle.into_index();
                if index < self.remote_targets.len() {
                    match self.remote_targets[index] {
                        Some(t) => t,
                        None => target,
                    }
                } else {
                    target
                }
            },
        }
    }
}

} // verus!
