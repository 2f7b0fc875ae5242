//! The coordinator: a pure state machine.
//!
//! It consumes [`CoordinatorEvent`]s (local platform input, client
//! lifecycle, inbound peer messages) and produces [`CoordinatorOutput`]s
//! that the driver turns into I/O. It owns the layout snapshot, the
//! virtual cursor, the held-input state, the clipboard-grab table and the
//! client registry.

use std::sync::Arc;

use vstd::prelude::*;

use crate::arith::{sat_i32, saturating_add_i32, saturating_sub_i32};
use crate::clipboard::{grab_accepted, without_owner, ClipboardGrabState, GrabRecordView};
use crate::common::ClipboardId;
use crate::held::{
    button_up_msgs, enter_msgs, held_after_leaving, held_apply, held_modifier_keys, key_up_msgs,
    leave_msgs, HeldState,
    HeldView,
};
use crate::layout::{
    entry_clamp, has_name, located, named, ScreenEntryView, ScreenLayout, ScreenLayoutView,
    ScreenName,
};
use crate::platform::InputEvent;
use crate::protocol::{lemma_msg_views_push, msg_views, Capability, Message, MessageView};
use crate::text::{copy_string, str_eq};

verus! {

/// Metadata about a connected client.
#[derive(Debug)]
pub struct ClientInfo {
    /// Capabilities the client advertised in its `Hello`.
    pub capabilities: Vec<Capability>,
}

/// One registered client.
#[derive(Debug)]
struct ClientEntry {
    name: ScreenName,
    info: ClientInfo,
}

/// Mathematical value of a registered client.
#[verifier::ext_equal]
pub struct ClientView {
    pub name: Seq<char>,
    pub capabilities: Seq<Capability>,
}

impl View for ClientEntry {
    type V = ClientView;

    closed spec fn view(&self) -> ClientView {
        ClientView { name: self.name@, capabilities: self.info.capabilities@ }
    }
}

/// Input to the coordinator.
#[derive(Debug)]
pub enum CoordinatorEvent {
    /// An event observed on the local (primary) screen.
    LocalInput(InputEvent),
    /// A peer finished its handshake.
    ClientConnected { name: ScreenName, capabilities: Vec<Capability> },
    /// A peer went away.
    ClientDisconnected { name: ScreenName },
    /// A peer sent a protocol message.
    PeerMessage { from: ScreenName, msg: Message },
    /// The layout store swapped in a new layout.
    LayoutReloaded,
}

/// Mathematical value of a [`CoordinatorEvent`].
pub enum EventView {
    LocalInput(InputEvent),
    ClientConnected { name: Seq<char>, capabilities: Seq<Capability> },
    ClientDisconnected { name: Seq<char> },
    PeerMessage { from: Seq<char>, msg: MessageView },
    LayoutReloaded,
}

impl View for CoordinatorEvent {
    type V = EventView;

    open spec fn view(&self) -> EventView {
        match self {
            CoordinatorEvent::LocalInput(e) => EventView::LocalInput(*e),
            CoordinatorEvent::ClientConnected { name, capabilities } => EventView::ClientConnected {
                name: name@,
                capabilities: capabilities@,
            },
            CoordinatorEvent::ClientDisconnected { name } => EventView::ClientDisconnected {
                name: name@,
            },
            CoordinatorEvent::PeerMessage { from, msg } => EventView::PeerMessage {
                from: from@,
                msg: msg@,
            },
            CoordinatorEvent::LayoutReloaded => EventView::LayoutReloaded,
        }
    }
}

/// Effect the coordinator wants the driver to perform.
#[derive(Debug, PartialEq)]
pub enum CoordinatorOutput {
    /// Forward `msg` to a specific peer.
    Send { to: ScreenName, msg: Message },
    /// Hand `msg` to the local platform dispatcher.
    InjectLocal(Message),
    /// A human-readable warning for the log.
    Warn(String),
}

/// Mathematical value of a [`CoordinatorOutput`].
pub enum OutputView {
    Send { to: Seq<char>, msg: MessageView },
    InjectLocal(MessageView),
    Warn(Seq<char>),
}

impl View for CoordinatorOutput {
    type V = OutputView;

    open spec fn view(&self) -> OutputView {
        match self {
            CoordinatorOutput::Send { to, msg } => OutputView::Send { to: to@, msg: msg@ },
            CoordinatorOutput::InjectLocal(m) => OutputView::InjectLocal(m@),
            CoordinatorOutput::Warn(w) => OutputView::Warn(w@),
        }
    }
}

/// Views of an output list.
pub open spec fn out_views(s: Seq<CoordinatorOutput>) -> Seq<OutputView> {
    s.map_values(|o: CoordinatorOutput| o@)
}

/// Mathematical value of a [`Coordinator`].
#[verifier::ext_equal]
pub struct CoordView {
    pub layout: ScreenLayoutView,
    pub local: Seq<char>,
    pub active: Seq<char>,
    pub cursor: (i32, i32),
    pub last_pos: Option<(i32, i32)>,
    pub held: HeldView,
    pub grabs: Map<ClipboardId, GrabRecordView>,
    pub clients: Seq<ClientView>,
    pub orphans: Seq<ClientView>,
    pub seq: u32,
}

// ---- the model -------------------------------------------------------

/// Virtual cursor translated to a screen's local coordinates.
pub open spec fn to_local_spec(c: (i32, i32), e: ScreenEntryView) -> (i32, i32) {
    (sat_i32(c.0 - e.origin_x), sat_i32(c.1 - e.origin_y))
}

/// Is input currently routed to a remote screen?
pub open spec fn is_remote(v: CoordView) -> bool {
    v.active != v.local
}

/// The seq after one more screen transition (wrapping).
pub open spec fn next_seq(s: u32) -> u32 {
    if s == u32::MAX {
        0
    } else {
        (s + 1) as u32
    }
}

/// One `Send` to `to` per message.
pub open spec fn sends(to: Seq<char>, msgs: Seq<MessageView>) -> Seq<OutputView> {
    msgs.map_values(|m: MessageView| OutputView::Send { to, msg: m })
}

/// Is some client of `cs` called `name`?
pub open spec fn listed(cs: Seq<ClientView>, name: Seq<char>) -> bool {
    exists|i: int| 0 <= i < cs.len() && (#[trigger] cs[i]).name == name
}

/// `i` is the first index of `cs` called `name`.
pub open spec fn first_listed(cs: Seq<ClientView>, name: Seq<char>, i: int) -> bool {
    &&& 0 <= i < cs.len()
    &&& cs[i].name == name
    &&& forall|j: int| 0 <= j < i ==> (#[trigger] cs[j]).name != name
}

/// Register `c`: replace the entry of the same name, or append.
pub open spec fn upsert(cs: Seq<ClientView>, c: ClientView) -> Seq<ClientView> {
    if listed(cs, c.name) {
        cs.update(choose|i: int| first_listed(cs, c.name, i), c)
    } else {
        cs.push(c)
    }
}

/// Every client except those called `name`.
pub open spec fn unlisted(cs: Seq<ClientView>, name: Seq<char>) -> Seq<ClientView> {
    cs.filter(|c: ClientView| c.name != name)
}

/// `m` sent to every client of `cs` not called `from`, in registry order.
pub open spec fn broadcast(cs: Seq<ClientView>, from: Seq<char>, m: MessageView) -> Seq<OutputView>
    decreases cs.len(),
{
    if cs.len() == 0 {
        Seq::empty()
    } else {
        let rest = broadcast(cs.drop_last(), from, m);
        if cs.last().name != from {
            rest.push(OutputView::Send { to: cs.last().name, msg: m })
        } else {
            rest
        }
    }
}

/// Forward `m` to the active screen if it is remote.
pub open spec fn forward(v: CoordView, m: MessageView) -> Seq<OutputView> {
    if is_remote(v) {
        seq![OutputView::Send { to: v.active, msg: m }]
    } else {
        Seq::empty()
    }
}

/// The wire message for a non-move local input event.
pub open spec fn input_message(e: InputEvent) -> MessageView {
    match e {
        InputEvent::KeyDown { key, mods } => MessageView::KeyDown { key, mods },
        InputEvent::KeyUp { key, mods } => MessageView::KeyUp { key, mods },
        InputEvent::MouseButton { button, down } => MessageView::MouseButton { button, down },
        InputEvent::MouseMove { x, y } => MessageView::MouseMove { x, y },
        InputEvent::MouseWheel { dx, dy } => MessageView::MouseWheel { dx, dy },
    }
}

/// Pin the cursor inside the active screen (a drag, or a move into a gap
/// of the layout); forward the pinned position when the active screen is
/// remote. With the active screen missing from the layout the cursor just
/// takes the attempted position.
pub open spec fn clamp_forward(v: CoordView, a: (i32, i32)) -> (CoordView, Seq<OutputView>) {
    match named(v.layout, v.active) {
        None => (CoordView { cursor: a, ..v }, Seq::empty()),
        Some(e) => {
            let c = entry_clamp(e, a.0, a.1);
            let p = to_local_spec(c, e);
            (
                CoordView { cursor: c, ..v },
                if is_remote(v) {
                    seq![OutputView::Send { to: v.active, msg: MessageView::MouseMove { x: p.0, y: p.1 } }]
                } else {
                    Seq::empty()
                },
            )
        },
    }
}

/// Warning when the crossed-into screen is missing from the layout.
pub open spec fn warn_not_in_layout(target: Seq<char>, local: Seq<char>) -> Seq<char> {
    "crossed into screen '"@ + target + "' which is not in the layout; falling back to '"@ + local
        + "'"@
}

/// Warning when no client is connected under the crossed-into name.
pub open spec fn warn_no_client(target: Seq<char>, local: Seq<char>) -> Seq<char> {
    "crossed into '"@ + target + "' but no client is connected under that name; returning to '"@
        + local + "'"@
}

/// Cross from the active screen to `target` with the cursor at `nc`:
/// release everything held on the old side and tell it to leave (when it
/// is remote), forget the released keys and buttons (the modifier mask
/// stays), bump the seq, then enter the new side with its local cursor
/// position, the seq and the held mask, and re-press the held modifiers
/// there. A target missing from the layout, or with no client
/// connected under its name, sends control back to the local screen with
/// a warning.
pub open spec fn cross(v: CoordView, target: Seq<char>, nc: (i32, i32)) -> (CoordView, Seq<OutputView>) {
    let leave = if is_remote(v) {
        sends(v.active, leave_msgs(v.held)).push(
            OutputView::Send { to: v.active, msg: MessageView::ScreenLeave },
        )
    } else {
        Seq::empty()
    };
    let s2 = next_seq(v.seq);
    let moved = CoordView { active: target, cursor: nc, seq: s2, held: held_after_leaving(v.held), ..v };
    if target == v.local {
        (moved, leave)
    } else {
        match named(v.layout, target) {
            None => (
                CoordView { active: v.local, ..moved },
                leave.push(OutputView::Warn(warn_not_in_layout(target, v.local))),
            ),
            Some(e) => if !listed(v.clients, target) {
                (
                    CoordView { active: v.local, ..moved },
                    leave.push(OutputView::Warn(warn_no_client(target, v.local))),
                )
            } else {
                let p = to_local_spec(nc, e);
                (
                    moved,
                    leave.push(
                        OutputView::Send {
                            to: target,
                            msg: MessageView::ScreenEnter { x: p.0, y: p.1, seq: s2, mask: v.held.mods },
                        },
                    ) + sends(target, enter_msgs(v.held)),
                )
            },
        }
    }
}

/// An absolute platform move to `(x, y)`: the move since the previous
/// platform position (none for the first event) moves the virtual cursor.
/// While a button is held, or when the new position lies in no screen,
/// the cursor is pinned to the active screen; inside the active screen it
/// just moves (forwarded when remote); inside another screen it crosses.
pub open spec fn mouse_move(v: CoordView, x: i32, y: i32) -> (CoordView, Seq<OutputView>) {
    let d = match v.last_pos {
        Some(p) => (sat_i32(x - p.0), sat_i32(y - p.1)),
        None => (0i32, 0i32),
    };
    let nc = (sat_i32(v.cursor.0 + d.0), sat_i32(v.cursor.1 + d.1));
    let v1 = CoordView { last_pos: Some((x, y)), ..v };
    if v.held.buttons.len() > 0 {
        clamp_forward(v1, nc)
    } else {
        match located(v.layout, nc.0, nc.1) {
            None => clamp_forward(v1, nc),
            Some(t) => if t.name == v.active {
                let v2 = CoordView { cursor: nc, ..v1 };
                if is_remote(v) {
                    match named(v.layout, v.active) {
                        Some(e) => {
                            let p = to_local_spec(nc, e);
                            (
                                v2,
                                seq![OutputView::Send { to: v.active, msg: MessageView::MouseMove { x: p.0, y: p.1 } }],
                            )
                        },
                        None => (v2, Seq::empty()),
                    }
                } else {
                    (v2, Seq::empty())
                }
            } else {
                cross(v1, t.name, nc)
            },
        }
    }
}

/// Warning when a client connects under a name the layout does not know.
pub open spec fn warn_orphan(name: Seq<char>) -> Seq<char> {
    "client '"@ + name + "' connected but is not declared in the layout; inputs will not be routed to it"@
}

/// Warning when the active client disconnects.
pub open spec fn warn_active_gone(name: Seq<char>, local: Seq<char>) -> Seq<char> {
    "active client '"@ + name + "' disconnected; returning control to '"@ + local + "'"@
}

/// Debug name of a clipboard id.
pub open spec fn clipboard_name(id: ClipboardId) -> Seq<char> {
    match id {
        ClipboardId::Clipboard => "Clipboard"@,
        ClipboardId::Primary => "Primary"@,
    }
}

/// Warning when a clipboard request names a clipboard nobody owns.
pub open spec fn warn_no_owner(from: Seq<char>, id: ClipboardId) -> Seq<char> {
    "clipboard request from '"@ + from + "' but no owner recorded for "@ + clipboard_name(id)
}

/// Warning when a clipboard request targets a clipboard the local screen owns.
pub open spec fn warn_local_owner(id: ClipboardId) -> Seq<char> {
    "clipboard request for primary-owned slot "@ + clipboard_name(id)
        + " — lazy clipboard not implemented yet"@
}

/// Warning for a peer message the coordinator does not handle.
pub open spec fn warn_unexpected(from: Seq<char>) -> Seq<char> {
    "unexpected peer message from '"@ + from + "'"@
}

/// A message from a peer: newer clipboard grabs are recorded and
/// announced to every other client (stale ones are dropped silently);
/// clipboard requests go to the recorded owner; clipboard data goes to
/// every other client and to the local screen; anything else is a
/// warning.
pub open spec fn peer_message(v: CoordView, from: Seq<char>, m: MessageView) -> (CoordView, Seq<OutputView>) {
    match m {
        MessageView::ClipboardGrab { id, seq } => if grab_accepted(v.grabs, id, seq) {
            (
                CoordView { grabs: v.grabs.insert(id, GrabRecordView { owner: from, seq }), ..v },
                broadcast(v.clients, from, m),
            )
        } else {
            (v, Seq::empty())
        },
        MessageView::ClipboardRequest { id, seq } => if !v.grabs.dom().contains(id) {
            (v, seq![OutputView::Warn(warn_no_owner(from, id))])
        } else if v.grabs[id].owner == v.local {
            (v, seq![OutputView::Warn(warn_local_owner(id))])
        } else {
            (v, seq![OutputView::Send { to: v.grabs[id].owner, msg: m }])
        },
        MessageView::ClipboardData { .. } => (v, broadcast(v.clients, from, m).push(OutputView::InjectLocal(m))),
        _ => (v, seq![OutputView::Warn(warn_unexpected(from))]),
    }
}

/// The full transition: the coordinator in `v` receives `e`, ends in `w`
/// and emits `out`.
pub open spec fn coord_step(v: CoordView, e: EventView, w: CoordView, out: Seq<OutputView>) -> bool {
    match e {
        EventView::LocalInput(InputEvent::MouseMove { x, y }) => (w, out) == mouse_move(v, x, y),
        EventView::LocalInput(ie) => {
            &&& held_apply(v.held, ie, w.held)
            &&& w == CoordView { held: w.held, ..v }
            &&& out == forward(v, input_message(ie))
        },
        EventView::ClientConnected { name, capabilities } => {
            let c = ClientView { name, capabilities };
            if has_name(v.layout.screens, name) {
                w == CoordView { clients: upsert(v.clients, c), ..v } && out == Seq::<OutputView>::empty()
            } else {
                w == CoordView { orphans: upsert(v.orphans, c), ..v } && out == seq![
                    OutputView::Warn(warn_orphan(name)),
                ]
            }
        },
        EventView::ClientDisconnected { name } => {
            let pruned = CoordView {
                clients: unlisted(v.clients, name),
                orphans: unlisted(v.orphans, name),
                grabs: without_owner(v.grabs, name),
                ..v
            };
            if v.active == name {
                w == CoordView { active: v.local, seq: next_seq(v.seq), ..pruned } && out == seq![
                    OutputView::Warn(warn_active_gone(name, v.local)),
                ]
            } else {
                w == pruned && out == Seq::<OutputView>::empty()
            }
        },
        EventView::PeerMessage { from, msg } => (w, out) == peer_message(v, from, msg),
        EventView::LayoutReloaded => w == v && out == Seq::<OutputView>::empty(),
    }
}

/// Input is routed either to the local screen or to a connected client.
pub open spec fn routes_to_known(v: CoordView) -> bool {
    v.active == v.local || listed(v.clients, v.active)
}

// ---- the machine -----------------------------------------------------

/// Single-actor core: layout, cursor, held state, clipboard-grab table,
/// client registry. Entirely synchronous.
#[derive(Debug)]
pub struct Coordinator {
    layout: Arc<ScreenLayout>,
    local_name: ScreenName,
    active: ScreenName,
    cursor: (i32, i32),
    last_platform_pos: Option<(i32, i32)>,
    held: HeldState,
    grabs: ClipboardGrabState,
    clients: Vec<ClientEntry>,
    orphans: Vec<ClientEntry>,
    seq: u32,
}

impl View for Coordinator {
    type V = CoordView;

    closed spec fn view(&self) -> CoordView {
        CoordView {
            layout: self.layout@,
            local: self.local_name@,
            active: self.active@,
            cursor: self.cursor,
            last_pos: self.last_platform_pos,
            held: self.held@,
            grabs: self.grabs.table(),
            clients: self.clients@.map_values(|c: ClientEntry| c@),
            orphans: self.orphans@.map_values(|c: ClientEntry| c@),
            seq: self.seq,
        }
    }
}

fn push_out(buf: &mut Vec<CoordinatorOutput>, o: CoordinatorOutput)
    ensures
        out_views(final(buf)@) == out_views(old(buf)@).push(o@),
{
    buf.push(o);
    assert(out_views(buf@) =~= out_views(old(buf)@).push(o@));
}

fn concat3(a: &str, b: &str, c: &str) -> (r: String)
    ensures
        r@ == a@ + b@ + c@,
{
    let mut s = a.to_owned();
    s.append(b);
    s.append(c);
    s
}

fn concat5(a: &str, b: &str, c: &str, d: &str, e: &str) -> (r: String)
    ensures
        r@ == a@ + b@ + c@ + d@ + e@,
{
    let mut s = a.to_owned();
    s.append(b);
    s.append(c);
    s.append(d);
    s.append(e);
    s
}

fn clipboard_name_str(id: ClipboardId) -> (r: &'static str)
    ensures
        r@ == clipboard_name(id),
{
    match id {
        ClipboardId::Clipboard => "Clipboard",
        ClipboardId::Primary => "Primary",
    }
}

/// Translate a virtual position into a screen's local coordinates.
pub fn to_local(virt: (i32, i32), origin_x: i32, origin_y: i32) -> (r: (i32, i32))
    ensures
        r == (sat_i32(virt.0 - origin_x), sat_i32(virt.1 - origin_y)),
{
    (saturating_sub_i32(virt.0, origin_x), saturating_sub_i32(virt.1, origin_y))
}

fn find_client(list: &Vec<ClientEntry>, name: &str) -> (r: Option<usize>)
    ensures
        match r {
            Some(i) => first_listed(list@.map_values(|c: ClientEntry| c@), name@, i as int),
            None => !listed(list@.map_values(|c: ClientEntry| c@), name@),
        },
{
    let ghost cs = list@.map_values(|c: ClientEntry| c@);
    let n = list.len();
    let mut i: usize = 0;
    while i < n
        invariant
            n == list@.len(),
            cs == list@.map_values(|c: ClientEntry| c@),
            i <= n,
            forall|j: int| 0 <= j < i ==> (#[trigger] cs[j]).name != name@,
        decreases n - i,
    {
        assert(cs[i as int] == list@[i as int]@);
        if str_eq(list[i].name.as_str(), name) {
            return Some(i);
        }
        i = i + 1;
    }
    None
}

fn upsert_client(list: &mut Vec<ClientEntry>, name: ScreenName, capabilities: Vec<Capability>)
    ensures
        final(list)@.map_values(|c: ClientEntry| c@) == upsert(
            old(list)@.map_values(|c: ClientEntry| c@),
            ClientView { name: name@, capabilities: capabilities@ },
        ),
{
    let ghost cs = old(list)@.map_values(|c: ClientEntry| c@);
    let ghost cv = ClientView { name: name@, capabilities: capabilities@ };
    let found = find_client(list, name.as_str());
    let entry = ClientEntry { name, info: ClientInfo { capabilities } };
    match found {
        Some(i) => {
            proof {
                let k = choose|k: int| first_listed(cs, cv.name, k);
                if k < i {
                    assert(cs[k].name != cv.name);
                } else if i < k {
                    assert(cs[i as int].name != cv.name);
                }
            }
            list.set(i, entry);
            assert(list@.map_values(|c: ClientEntry| c@) =~= cs.update(i as int, cv));
        },
        None => {
            list.push(entry);
            assert(list@.map_values(|c: ClientEntry| c@) =~= cs.push(cv));
        },
    }
}

fn remove_clients(list: &mut Vec<ClientEntry>, name: &str)
    ensures
        final(list)@.map_values(|c: ClientEntry| c@) == unlisted(
            old(list)@.map_values(|c: ClientEntry| c@),
            name@,
        ),
{
    let ghost cs = old(list)@.map_values(|c: ClientEntry| c@);
    let mut kept: Vec<ClientEntry> = Vec::new();
    let n = list.len();
    let mut i: usize = 0;
    while i < n
        invariant
            n == list@.len(),
            cs == list@.map_values(|c: ClientEntry| c@),
            i <= n,
            kept@.map_values(|c: ClientEntry| c@) == unlisted(cs.subrange(0, i as int), name@),
        decreases n - i,
    {
        let ghost before = kept@.map_values(|c: ClientEntry| c@);
        proof {
            lemma_unlisted_step(cs, i as int, name@);
        }
        assert(cs[i as int] == list@[i as int]@);
        if !str_eq(list[i].name.as_str(), name) {
            kept.push(list[i].duplicate());
            assert(kept@.map_values(|c: ClientEntry| c@) =~= before.push(list@[i as int]@));
        }
        assert(kept@.map_values(|c: ClientEntry| c@) =~= unlisted(cs.subrange(0, i + 1), name@));
        i = i + 1;
    }
    assert(cs.subrange(0, n as int) =~= cs);
    *list = kept;
}

impl ClientEntry {
    fn duplicate(&self) -> (r: ClientEntry)
        ensures
            r@ == self@,
    {
        let caps = self.info.capabilities.clone();
        assert(caps@ =~= self.info.capabilities@);
        ClientEntry { name: copy_string(&self.name), info: ClientInfo { capabilities: caps } }
    }
}

impl Coordinator {
    /// A fresh coordinator on the local screen, the virtual cursor parked
    /// at the centre of the local screen's rectangle (the origin when the
    /// layout does not list it), nothing held, no client, seq 0.
    pub fn new(layout: Arc<ScreenLayout>, local_name: ScreenName) -> (c: Coordinator)
        ensures
            c@.layout == layout@,
            c@.local == local_name@,
            c@.active == local_name@,
            c@.cursor == (match named(layout@, local_name@) {
                Some(e) => (sat_i32(e.origin_x + e.width / 2), sat_i32(e.origin_y + e.height / 2)),
                None => (0i32, 0i32),
            }),
            c@.last_pos is None,
            c@.held.keys.len() == 0,
            c@.held.buttons.len() == 0,
            c@.held.mods.0 == 0,
            c@.grabs == Map::<ClipboardId, GrabRecordView>::empty(),
            c@.clients.len() == 0,
            c@.orphans.len() == 0,
            c@.seq == 0,
            routes_to_known(c@),
    {
        let cursor = match layout.screen_by_name(local_name.as_str()) {
            Some(s) => {
                assert(s.width / 2 <= i32::MAX);
                (
                    saturating_add_i32(s.origin_x, (s.width / 2) as i32),
                    saturating_add_i32(s.origin_y, (s.height / 2) as i32),
                )
            },
            None => (0, 0),
        };
        let active = copy_string(&local_name);
        let c = Coordinator {
            layout,
            local_name,
            active,
            cursor,
            last_platform_pos: None,
            held: HeldState::new(),
            grabs: ClipboardGrabState::new(),
            clients: Vec::new(),
            orphans: Vec::new(),
            seq: 0,
        };
        assert(c@.clients.len() == 0);
        c
    }

    /// Read the layout from this snapshot from now on (the layout store
    /// publishes a new snapshot when it reloads).
    pub fn set_layout(&mut self, layout: Arc<ScreenLayout>)
        ensures
            final(self)@ == (CoordView { layout: layout@, ..old(self)@ }),
    {
        self.layout = layout;
        assert(self@ =~= (CoordView { layout: layout@, ..old(self)@ }));
    }

    /// Current virtual-coordinate cursor.
    pub fn cursor(&self) -> (r: (i32, i32))
        ensures
            r == self@.cursor,
    {
        self.cursor
    }

    /// Name of the currently active screen.
    pub fn active(&self) -> (r: &str)
        ensures
            r@ == self@.active,
    {
        self.active.as_str()
    }

    /// Global screen-transition seq.
    pub fn seq(&self) -> (r: u32)
        ensures
            r == self@.seq,
    {
        self.seq
    }

    /// Is a client called `name` registered (and routable)?
    pub fn has_client(&self, name: &str) -> (r: bool)
        ensures
            r == listed(self@.clients, name@),
    {
        find_client(&self.clients, name).is_some()
    }

    /// Is a client called `name` registered outside the layout?
    pub fn has_orphan(&self, name: &str) -> (r: bool)
        ensures
            r == listed(self@.orphans, name@),
    {
        find_client(&self.orphans, name).is_some()
    }

    fn is_remote_exec(&self) -> (r: bool)
        ensures
            r == is_remote(self@),
    {
        !(self.active == self.local_name)
    }

    fn forward_if_remote(&self, msg: Message, buf: &mut Vec<CoordinatorOutput>)
        ensures
            out_views(final(buf)@) == out_views(old(buf)@) + forward(self@, msg@),
    {
        if self.is_remote_exec() {
            push_out(buf, CoordinatorOutput::Send { to: copy_string(&self.active), msg });
            assert(out_views(buf@) =~= out_views(old(buf)@) + forward(self@, msg@));
        } else {
            assert(out_views(buf@) =~= out_views(old(buf)@) + forward(self@, msg@));
        }
    }

    fn clamp_and_forward(&mut self, attempted: (i32, i32), buf: &mut Vec<CoordinatorOutput>)
        ensures
            final(self)@ == clamp_forward(old(self)@, attempted).0,
            out_views(final(buf)@) == out_views(old(buf)@) + clamp_forward(old(self)@, attempted).1,
    {
        let found = match self.layout.screen_by_name(self.active.as_str()) {
            Some(current) => Some((current.clamp(attempted.0, attempted.1), current.origin_x, current.origin_y)),
            None => None,
        };
        match found {
            None => {
                self.cursor = attempted;
                assert(self@ =~= clamp_forward(old(self)@, attempted).0);
                assert(out_views(buf@) =~= out_views(old(buf)@) + clamp_forward(old(self)@, attempted).1);
            },
            Some((clamped, ox, oy)) => {
                self.cursor = clamped;
                assert(self@ =~= clamp_forward(old(self)@, attempted).0);
                if self.is_remote_exec() {
                    let (lx, ly) = to_local(clamped, ox, oy);
                    push_out(
                        buf,
                        CoordinatorOutput::Send {
                            to: copy_string(&self.active),
                            msg: Message::MouseMove { x: lx, y: ly },
                        },
                    );
                }
                assert(out_views(buf@) =~= out_views(old(buf)@) + clamp_forward(old(self)@, attempted).1);
            },
        }
    }

    fn push_sends(&self, to: &ScreenName, msgs: Vec<Message>, buf: &mut Vec<CoordinatorOutput>)
        ensures
            out_views(final(buf)@) == out_views(old(buf)@) + sends(to@, msg_views(msgs@)),
    {
        let n = msgs.len();
        let mut src = msgs;
        let ghost all = msg_views(src@);
        let mut rev: Vec<Message> = Vec::new();
        while src.len() > 0
            invariant
                src@.len() + rev@.len() == n,
                all.len() == n,
                forall|j: int| 0 <= j < src@.len() ==> (#[trigger] src@[j])@ == all[j],
                forall|j: int| 0 <= j < rev@.len() ==> (#[trigger] rev@[j])@ == all[n - 1 - j],
            decreases src@.len(),
        {
            let m = src.pop().unwrap();
            rev.push(m);
        }
        let mut i: usize = 0;
        while i < n
            invariant
                i <= n,
                rev@.len() == n - i,
                all.len() == n,
                forall|j: int| 0 <= j < rev@.len() ==> (#[trigger] rev@[j])@ == all[n - 1 - j],
                out_views(buf@) == out_views(old(buf)@) + sends(to@, all.subrange(0, i as int)),
            decreases n - i,
        {
            let m = rev.pop().unwrap();
            assert(m@ == all[i as int]);
            let ghost before = out_views(buf@);
            push_out(buf, CoordinatorOutput::Send { to: copy_string(to), msg: m });
            assert(sends(to@, all.subrange(0, i + 1)) =~= sends(to@, all.subrange(0, i as int)).push(
                OutputView::Send { to: to@, msg: all[i as int] },
            ));
            assert(out_views(buf@) =~= out_views(old(buf)@) + sends(to@, all.subrange(0, i + 1)));
            i = i + 1;
        }
        assert(all.subrange(0, n as int) =~= all);
    }

    fn cross_to(&mut self, new_active: ScreenName, new_cursor: (i32, i32), buf: &mut Vec<CoordinatorOutput>)
        ensures
            final(self)@ == cross(old(self)@, new_active@, new_cursor).0,
            out_views(final(buf)@) == out_views(old(buf)@) + cross(old(self)@, new_active@, new_cursor).1,
    {
        let ghost v = self@;
        let ghost target = new_active@;
        let ghost leave = if is_remote(v) {
            sends(v.active, leave_msgs(v.held)).push(
                OutputView::Send { to: v.active, msg: MessageView::ScreenLeave },
            )
        } else {
            Seq::empty()
        };
        let leave_msgs_vec = self.held.leave_messages();
        if self.is_remote_exec() {
            let to = copy_string(&self.active);
            self.push_sends(&to, leave_msgs_vec, buf);
            push_out(buf, CoordinatorOutput::Send { to, msg: Message::ScreenLeave });
        }
        assert(out_views(buf@) =~= out_views(old(buf)@) + leave);
        let ghost after_leave = out_views(buf@);
        self.held.forget_released();
        self.active = copy_string(&new_active);
        self.cursor = new_cursor;
        self.seq = if self.seq == u32::MAX { 0 } else { self.seq + 1 };
        let ghost moved = CoordView {
            active: target,
            cursor: new_cursor,
            seq: next_seq(v.seq),
            held: held_after_leaving(v.held),
            ..v
        };
        assert(self@ =~= moved);
        if new_active == self.local_name {
            return;
        }
        let found = match self.layout.screen_by_name(new_active.as_str()) {
            Some(screen) => Some((screen.origin_x, screen.origin_y)),
            None => None,
        };
        match found {
            None => {
                let w = concat5(
                    "crossed into screen '",
                    new_active.as_str(),
                    "' which is not in the layout; falling back to '",
                    self.local_name.as_str(),
                    "'",
                );
                push_out(buf, CoordinatorOutput::Warn(w));
                self.active = copy_string(&self.local_name);
                assert(self@ =~= cross(v, target, new_cursor).0);
                assert(out_views(buf@) =~= out_views(old(buf)@) + cross(v, target, new_cursor).1);
            },
            Some((ox, oy)) => {
                if !self.has_client(new_active.as_str()) {
                    let w = concat5(
                        "crossed into '",
                        new_active.as_str(),
                        "' but no client is connected under that name; returning to '",
                        self.local_name.as_str(),
                        "'",
                    );
                    push_out(buf, CoordinatorOutput::Warn(w));
                    self.active = copy_string(&self.local_name);
                    assert(self@ =~= cross(v, target, new_cursor).0);
                    assert(out_views(buf@) =~= out_views(old(buf)@) + cross(v, target, new_cursor).1);
                    return;
                }
                let (lx, ly) = to_local(new_cursor, ox, oy);
                push_out(
                    buf,
                    CoordinatorOutput::Send {
                        to: copy_string(&new_active),
                        msg: Message::ScreenEnter { x: lx, y: ly, seq: self.seq, mask: self.held.mods() },
                    },
                );
                let enter = self.held.enter_messages();
                self.push_sends(&new_active, enter, buf);
                assert(out_views(buf@) =~= out_views(old(buf)@) + cross(v, target, new_cursor).1);
            },
        }
    }

    fn on_mouse_move(&mut self, local_x: i32, local_y: i32, buf: &mut Vec<CoordinatorOutput>)
        ensures
            final(self)@ == mouse_move(old(self)@, local_x, local_y).0,
            out_views(final(buf)@) == out_views(old(buf)@) + mouse_move(old(self)@, local_x, local_y).1,
    {
        let ghost v = self@;
        let delta = match self.last_platform_pos {
            Some((px, py)) => (saturating_sub_i32(local_x, px), saturating_sub_i32(local_y, py)),
            None => (0i32, 0i32),
        };
        self.last_platform_pos = Some((local_x, local_y));
        let new_cursor = (
            saturating_add_i32(self.cursor.0, delta.0),
            saturating_add_i32(self.cursor.1, delta.1),
        );
        let ghost v1 = CoordView { last_pos: Some((local_x, local_y)), ..v };
        assert(self@ =~= v1);
        if self.held.any_button_held() {
            self.clamp_and_forward(new_cursor, buf);
            return;
        }
        let target = match self.layout.screen_at(new_cursor.0, new_cursor.1) {
            Some(t) => Some(copy_string(&t.name)),
            None => None,
        };
        match target {
            None => {
                self.clamp_and_forward(new_cursor, buf);
            },
            Some(target_name) => {
                if target_name == self.active {
                    self.cursor = new_cursor;
                    assert(self@ =~= mouse_move(v, local_x, local_y).0);
                    if self.is_remote_exec() {
                        let origin = match self.layout.screen_by_name(self.active.as_str()) {
                            Some(screen) => Some((screen.origin_x, screen.origin_y)),
                            None => None,
                        };
                        if let Some((ox, oy)) = origin {
                            let (lx, ly) = to_local(new_cursor, ox, oy);
                            push_out(
                                buf,
                                CoordinatorOutput::Send {
                                    to: copy_string(&self.active),
                                    msg: Message::MouseMove { x: lx, y: ly },
                                },
                            );
                        }
                    }
                    assert(out_views(buf@) =~= out_views(old(buf)@) + mouse_move(v, local_x, local_y).1);
                } else {
                    self.cross_to(target_name, new_cursor, buf);
                }
            },
        }
    }

    fn input_to_message(ev: &InputEvent) -> (m: Message)
        ensures
            m@ == input_message(*ev),
    {
        match *ev {
            InputEvent::KeyDown { key, mods } => Message::KeyDown { key, mods },
            InputEvent::KeyUp { key, mods } => Message::KeyUp { key, mods },
            InputEvent::MouseButton { button, down } => Message::MouseButton { button, down },
            InputEvent::MouseMove { x, y } => Message::MouseMove { x, y },
            InputEvent::MouseWheel { dx, dy } => Message::MouseWheel { dx, dy },
        }
    }

    fn on_local_input(&mut self, ev: InputEvent, buf: &mut Vec<CoordinatorOutput>)
        ensures
            coord_step(old(self)@, EventView::LocalInput(ev), final(self)@, out_views(final(buf)@).subrange(
                out_views(old(buf)@).len() as int,
                out_views(final(buf)@).len() as int,
            )),
            out_views(final(buf)@).subrange(0, out_views(old(buf)@).len() as int) == out_views(old(buf)@),
            out_views(final(buf)@).len() >= out_views(old(buf)@).len(),
    {
        let ghost v = self@;
        let ghost b0 = out_views(buf@);
        match ev {
            InputEvent::MouseMove { x, y } => {
                self.on_mouse_move(x, y, buf);
                assert(out_views(buf@).subrange(b0.len() as int, out_views(buf@).len() as int)
                    =~= mouse_move(v, x, y).1);
            },
            _ => {
                self.held.apply(&ev);
                let m = Self::input_to_message(&ev);
                self.forward_if_remote(m, buf);
                assert(self@ =~= CoordView { held: self@.held, ..v });
                assert(out_views(buf@).subrange(b0.len() as int, out_views(buf@).len() as int)
                    =~= forward(v, input_message(ev)));
            },
        }
        assert(out_views(buf@).subrange(0, b0.len() as int) =~= b0);
    }

    fn broadcast_to_others(&self, from: &ScreenName, msg: &Message, buf: &mut Vec<CoordinatorOutput>)
        ensures
            out_views(final(buf)@) == out_views(old(buf)@) + broadcast(self@.clients, from@, msg@),
    {
        let ghost cs = self@.clients;
        let n = self.clients.len();
        let mut i: usize = 0;
        while i < n
            invariant
                n == self.clients@.len(),
                cs == self.clients@.map_values(|c: ClientEntry| c@),
                i <= n,
                out_views(buf@) == out_views(old(buf)@) + broadcast(cs.subrange(0, i as int), from@, msg@),
            decreases n - i,
        {
            assert(cs.subrange(0, i + 1).drop_last() =~= cs.subrange(0, i as int));
            assert(cs.subrange(0, i + 1).last() == self.clients@[i as int]@);
            if !str_eq(self.clients[i].name.as_str(), from.as_str()) {
                push_out(
                    buf,
                    CoordinatorOutput::Send { to: copy_string(&self.clients[i].name), msg: msg.duplicate() },
                );
            }
            assert(out_views(buf@) =~= out_views(old(buf)@) + broadcast(cs.subrange(0, i + 1), from@, msg@));
            i = i + 1;
        }
        assert(cs.subrange(0, n as int) =~= cs);
    }

    fn on_peer_message(&mut self, from: ScreenName, msg: Message, buf: &mut Vec<CoordinatorOutput>)
        ensures
            final(self)@ == peer_message(old(self)@, from@, msg@).0,
            out_views(final(buf)@) == out_views(old(buf)@) + peer_message(old(self)@, from@, msg@).1,
    {
        let ghost v = self@;
        match msg {
            Message::ClipboardGrab { id, seq } => {
                let accepted = self.grabs.on_grab(copy_string(&from), id, seq);
                assert(self@ =~= peer_message(v, from@, msg@).0);
                if accepted {
                    self.broadcast_to_others(&from, &Message::ClipboardGrab { id, seq }, buf);
                }
                assert(out_views(buf@) =~= out_views(old(buf)@) + peer_message(v, from@, msg@).1);
            },
            Message::ClipboardRequest { id, seq } => {
                let owner = match self.grabs.owner_of(id) {
                    Some(o) => Some(copy_string(o)),
                    None => None,
                };
                match owner {
                    None => {
                        let mut w = concat3(
                            "clipboard request from '",
                            from.as_str(),
                            "' but no owner recorded for ",
                        );
                        w.append(clipboard_name_str(id));
                        assert(w@ =~= warn_no_owner(from@, id));
                        push_out(buf, CoordinatorOutput::Warn(w));
                    },
                    Some(owner) => {
                        if owner == self.local_name {
                            let w = concat3(
                                "clipboard request for primary-owned slot ",
                                clipboard_name_str(id),
                                " — lazy clipboard not implemented yet",
                            );
                            push_out(buf, CoordinatorOutput::Warn(w));
                        } else {
                            push_out(
                                buf,
                                CoordinatorOutput::Send { to: owner, msg: Message::ClipboardRequest { id, seq } },
                            );
                        }
                    },
                }
                assert(out_views(buf@) =~= out_views(old(buf)@) + peer_message(v, from@, msg@).1);
            },
            Message::ClipboardData { id, format, data } => {
                let m = Message::ClipboardData { id, format, data };
                self.broadcast_to_others(&from, &m, buf);
                push_out(buf, CoordinatorOutput::InjectLocal(m));
                assert(out_views(buf@) =~= out_views(old(buf)@) + peer_message(v, from@, msg@).1);
            },
            _ => {
                let w = concat3("unexpected peer message from '", from.as_str(), "'");
                push_out(buf, CoordinatorOutput::Warn(w));
                assert(out_views(buf@) =~= out_views(old(buf)@) + peer_message(v, from@, msg@).1);
            },
        }
    }

    /// Single entry point: apply `event` and append the resulting outputs
    /// to `buf` (see [`coord_step`]). Input keeps being routed to the local
    /// screen or to a connected client.
    pub fn on_event(&mut self, event: CoordinatorEvent, buf: &mut Vec<CoordinatorOutput>)
        ensures
            coord_step(old(self)@, event@, final(self)@, out_views(final(buf)@).subrange(
                out_views(old(buf)@).len() as int,
                out_views(final(buf)@).len() as int,
            )),
            out_views(old(buf)@).len() <= out_views(final(buf)@).len(),
            out_views(final(buf)@) == out_views(old(buf)@) + out_views(final(buf)@).subrange(
                out_views(old(buf)@).len() as int,
                out_views(final(buf)@).len() as int,
            ),
            routes_to_known(old(self)@) ==> routes_to_known(final(self)@),
    {
        let ghost v = self@;
        let ghost e = event@;
        let ghost b0 = out_views(buf@);
        match event {
            CoordinatorEvent::LocalInput(ev) => {
                self.on_local_input(ev, buf);
                assert(coord_step(v, e, self@, out_views(buf@).subrange(b0.len() as int, out_views(buf@).len() as int)));
            },
            CoordinatorEvent::ClientConnected { name, capabilities } => {
                if self.layout.screen_by_name(name.as_str()).is_some() {
                    upsert_client(&mut self.clients, name, capabilities);
                    assert(self@ =~= CoordView {
                        clients: upsert(v.clients, ClientView { name: e->ClientConnected_name, capabilities: e->ClientConnected_capabilities }),
                        ..v
                    });
                } else {
                    let w = concat3(
                        "client '",
                        name.as_str(),
                        "' connected but is not declared in the layout; inputs will not be routed to it",
                    );
                    push_out(buf, CoordinatorOutput::Warn(w));
                    upsert_client(&mut self.orphans, name, capabilities);
                    assert(self@ =~= CoordView {
                        orphans: upsert(v.orphans, ClientView { name: e->ClientConnected_name, capabilities: e->ClientConnected_capabilities }),
                        ..v
                    });
                }
                assert(out_views(buf@).subrange(b0.len() as int, out_views(buf@).len() as int)
                    =~= (if has_name(v.layout.screens, e->ClientConnected_name) {
                    Seq::<OutputView>::empty()
                } else {
                    seq![OutputView::Warn(warn_orphan(e->ClientConnected_name))]
                }));
                assert(coord_step(v, e, self@, out_views(buf@).subrange(b0.len() as int, out_views(buf@).len() as int)));
            },
            CoordinatorEvent::ClientDisconnected { name } => {
                remove_clients(&mut self.clients, name.as_str());
                remove_clients(&mut self.orphans, name.as_str());
                self.grabs.drop_owner(name.as_str());
                let ghost pruned = CoordView {
                    clients: unlisted(v.clients, name@),
                    orphans: unlisted(v.orphans, name@),
                    grabs: without_owner(v.grabs, name@),
                    ..v
                };
                assert(self@ =~= pruned);
                if self.active == name {
                    self.active = copy_string(&self.local_name);
                    self.seq = if self.seq == u32::MAX { 0 } else { self.seq + 1 };
                    let w = concat5(
                        "active client '",
                        name.as_str(),
                        "' disconnected; returning control to '",
                        self.local_name.as_str(),
                        "'",
                    );
                    push_out(buf, CoordinatorOutput::Warn(w));
                    assert(self@ =~= CoordView { active: v.local, seq: next_seq(v.seq), ..pruned });
                }
                assert(out_views(buf@).subrange(b0.len() as int, out_views(buf@).len() as int)
                    =~= (if v.active == e->ClientDisconnected_name {
                    seq![OutputView::Warn(warn_active_gone(e->ClientDisconnected_name, v.local))]
                } else {
                    Seq::<OutputView>::empty()
                }));
                assert(coord_step(v, e, self@, out_views(buf@).subrange(b0.len() as int, out_views(buf@).len() as int)));
            },
            CoordinatorEvent::PeerMessage { from, msg } => {
                self.on_peer_message(from, msg, buf);
                assert(out_views(buf@).subrange(b0.len() as int, out_views(buf@).len() as int)
                    =~= peer_message(v, e->PeerMessage_from, e->PeerMessage_msg).1);
                assert(coord_step(v, e, self@, out_views(buf@).subrange(b0.len() as int, out_views(buf@).len() as int)));
            },
            CoordinatorEvent::LayoutReloaded => {
                assert(out_views(buf@).subrange(b0.len() as int, out_views(buf@).len() as int) =~= Seq::<OutputView>::empty());
                assert(coord_step(v, e, self@, out_views(buf@).subrange(b0.len() as int, out_views(buf@).len() as int)));
            },
        }
        assert(out_views(buf@).len() >= b0.len());
        assert(out_views(buf@) =~= b0 + out_views(buf@).subrange(b0.len() as int, out_views(buf@).len() as int));
        proof {
            lemma_step_routes_to_known(v, e, self@, out_views(buf@).subrange(b0.len() as int, out_views(buf@).len() as int));
        }
    }
}

/// Filtering a prefix one element longer.
pub proof fn lemma_unlisted_step(cs: Seq<ClientView>, i: int, name: Seq<char>)
    requires
        0 <= i < cs.len(),
    ensures
        unlisted(cs.subrange(0, i + 1), name) == (if cs[i].name != name {
            unlisted(cs.subrange(0, i), name).push(cs[i])
        } else {
            unlisted(cs.subrange(0, i), name)
        }),
{
    reveal(Seq::filter);
    assert(cs.subrange(0, i + 1).drop_last() =~= cs.subrange(0, i));
    assert(cs.subrange(0, i + 1).last() == cs[i]);
}

/// Registering a client keeps every name listed and lists the new one.
pub proof fn lemma_upsert_listed(cs: Seq<ClientView>, c: ClientView, n: Seq<char>)
    ensures
        listed(cs, n) ==> listed(upsert(cs, c), n),
        listed(upsert(cs, c), c.name),
{
    if listed(cs, c.name) {
        let k = choose|k: int| first_listed(cs, c.name, k);
        assert(exists|k: int| first_listed(cs, c.name, k)) by {
            lemma_first_listed_exists(cs, c.name);
        }
        let u = cs.update(k, c);
        assert(u[k].name == c.name);
        if listed(cs, n) {
            let i = choose|i: int| 0 <= i < cs.len() && (#[trigger] cs[i]).name == n;
            assert(u[i].name == n);
        }
    } else {
        let u = cs.push(c);
        assert(u[cs.len() as int].name == c.name);
        if listed(cs, n) {
            let i = choose|i: int| 0 <= i < cs.len() && (#[trigger] cs[i]).name == n;
            assert(u[i].name == n);
        }
    }
}

/// A listed name has a first occurrence.
pub proof fn lemma_first_listed_exists(cs: Seq<ClientView>, n: Seq<char>)
    requires
        listed(cs, n),
    ensures
        exists|k: int| first_listed(cs, n, k),
    decreases cs.len(),
{
    if cs[0].name == n {
        assert(first_listed(cs, n, 0));
    } else {
        let i = choose|i: int| 0 <= i < cs.len() && (#[trigger] cs[i]).name == n;
        let t = cs.drop_first();
        assert(t[i - 1].name == n);
        lemma_first_listed_exists(t, n);
        let k = choose|k: int| first_listed(t, n, k);
        assert(first_listed(cs, n, k + 1)) by {
            assert forall|j: int| 0 <= j < k + 1 implies (#[trigger] cs[j]).name != n by {
                if j > 0 {
                    assert(cs[j] == t[j - 1]);
                }
            }
        }
    }
}

/// Dropping the clients called `name` keeps every other name listed.
pub proof fn lemma_unlisted_keeps(cs: Seq<ClientView>, name: Seq<char>, n: Seq<char>)
    requires
        n != name,
        listed(cs, n),
    ensures
        listed(unlisted(cs, name), n),
{
    let i = choose|i: int| 0 <= i < cs.len() && (#[trigger] cs[i]).name == n;
    let pred = |c: ClientView| c.name != name;
    cs.lemma_filter_contains(pred, i);
    let f = cs.filter(pred);
    assert(f.contains(cs[i]));
    let j = choose|j: int| 0 <= j < f.len() && f[j] == cs[i];
    assert(f[j].name == n);
}

/// The coordinator only ever routes input to the local screen or to a
/// connected client: every transition keeps that true.
pub proof fn lemma_step_routes_to_known(v: CoordView, e: EventView, w: CoordView, out: Seq<OutputView>)
    requires
        coord_step(v, e, w, out),
    ensures
        routes_to_known(v) ==> routes_to_known(w),
{
    if routes_to_known(v) {
        match e {
            EventView::LocalInput(InputEvent::MouseMove { x, y }) => {
                let d = match v.last_pos {
                    Some(p) => (sat_i32(x - p.0), sat_i32(y - p.1)),
                    None => (0i32, 0i32),
                };
                let nc = (sat_i32(v.cursor.0 + d.0), sat_i32(v.cursor.1 + d.1));
                let v1 = CoordView { last_pos: Some((x, y)), ..v };
                assert(routes_to_known(clamp_forward(v1, nc).0));
                match located(v.layout, nc.0, nc.1) {
                    Some(t) => {
                        assert(routes_to_known(cross(v1, t.name, nc).0));
                    },
                    None => {},
                }
            },
            EventView::ClientConnected { name, capabilities } => {
                lemma_upsert_listed(v.clients, ClientView { name, capabilities }, v.active);
            },
            EventView::ClientDisconnected { name } => {
                if v.active != name && v.active != v.local {
                    lemma_unlisted_keeps(v.clients, name, v.active);
                }
            },
            _ => {},
        }
    }
}

// ---- laws ------------------------------------------------------------

/// Screen transitions are `ScreenEnter` and `ScreenLeave`.
pub open spec fn is_transition(m: MessageView) -> bool {
    m is ScreenEnter || m is ScreenLeave
}

/// A transition output is addressed correctly for a coordinator in `v`:
/// `ScreenEnter` only to a connected client other than the local screen,
/// `ScreenLeave` only to the active screen, and only when it is remote.
pub open spec fn transition_routed(v: CoordView, o: OutputView) -> bool {
    match o {
        OutputView::Send { to, msg } => {
            &&& msg is ScreenEnter ==> to != v.local && listed(v.clients, to)
            &&& msg is ScreenLeave ==> to == v.active && is_remote(v)
        },
        _ => true,
    }
}

/// No message of `ms` is a screen transition.
pub open spec fn no_transition(ms: Seq<MessageView>) -> bool {
    forall|i: int| 0 <= i < ms.len() ==> !is_transition(#[trigger] ms[i])
}

/// What the held state releases and re-presses are plain key and button
/// messages.
pub proof fn lemma_held_msgs_plain(h: HeldView)
    ensures
        no_transition(leave_msgs(h)),
        no_transition(enter_msgs(h)),
{
    let a = key_up_msgs(h.keys);
    let b = button_up_msgs(h.buttons);
    let c = key_up_msgs(held_modifier_keys(h.mods.0, 8));
    assert forall|i: int| 0 <= i < leave_msgs(h).len() implies !is_transition(
        #[trigger] leave_msgs(h)[i],
    ) by {
        assert(leave_msgs(h) == a + b + c);
        if i < a.len() {
            assert((a + b + c)[i] == a[i]);
        } else if i < a.len() + b.len() {
            assert((a + b + c)[i] == b[i - a.len()]);
        } else {
            assert((a + b + c)[i] == c[i - a.len() - b.len()]);
        }
    }
}

/// A broadcast goes to listed clients other than the sender, each time
/// with the broadcast message.
pub proof fn lemma_broadcast_targets(cs: Seq<ClientView>, from: Seq<char>, m: MessageView, i: int)
    requires
        0 <= i < broadcast(cs, from, m).len(),
    ensures
        broadcast(cs, from, m)[i] matches OutputView::Send { to, msg } && to != from && msg == m
            && listed(cs, to),
    decreases cs.len(),
{
    if cs.len() > 0 {
        let rest = broadcast(cs.drop_last(), from, m);
        if i < rest.len() {
            lemma_broadcast_targets(cs.drop_last(), from, m, i);
            let to = rest[i]->Send_to;
            let j = choose|j: int| 0 <= j < cs.drop_last().len() && (#[trigger] cs.drop_last()[j]).name
                == to;
            assert(cs[j].name == to);
        } else {
            assert(cs[cs.len() - 1].name == cs.last().name);
        }
    }
}

/// A broadcast reaches every client other than the sender, once per
/// registration: for each name other than `from`, there are exactly as
/// many sends of `m` to it as clients registered under it, and in all as
/// many sends as clients not called `from`.
pub proof fn lemma_broadcast_reaches_every_other_client(
    cs: Seq<ClientView>,
    from: Seq<char>,
    m: MessageView,
    name: Seq<char>,
)
    ensures
        broadcast(cs, from, m).len() == cs.filter(|c: ClientView| c.name != from).len(),
        name != from ==> broadcast(cs, from, m).filter(
            |o: OutputView| o == OutputView::Send { to: name, msg: m },
        ).len() == cs.filter(|c: ClientView| c.name == name).len(),
        forall|i: int|
            0 <= i < cs.len() && (#[trigger] cs[i]).name != from ==> broadcast(cs, from, m).contains(
                OutputView::Send { to: cs[i].name, msg: m },
            ),
    decreases cs.len(),
{
    reveal(Seq::filter);
    if cs.len() > 0 {
        let init = cs.drop_last();
        let rest = broadcast(init, from, m);
        lemma_broadcast_reaches_every_other_client(init, from, m, name);
        let last = cs.last();
        let sent = OutputView::Send { to: last.name, msg: m };
        if last.name != from {
            assert(broadcast(cs, from, m) == rest.push(sent));
            assert(rest.push(sent).drop_last() =~= rest);
        }
        assert forall|i: int| 0 <= i < cs.len() && (#[trigger] cs[i]).name != from implies broadcast(
            cs,
            from,
            m,
        ).contains(OutputView::Send { to: cs[i].name, msg: m }) by {
            if i < cs.len() - 1 {
                assert(init[i] == cs[i]);
                let k = choose|k: int| 0 <= k < rest.len() && rest[k] == OutputView::Send { to: init[i].name, msg: m };
                if last.name != from {
                    assert(rest.push(sent)[k] == rest[k]);
                }
            } else {
                assert(rest.push(sent)[rest.len() as int] == sent);
            }
        }
    }
}

/// Key, button and wheel input reaches the active screen as it was typed:
/// when that screen is remote, exactly one message goes to it, of the
/// same kind and with the same key and mask, button and state, or wheel
/// deltas (neither axis swapped nor scaled); on the local screen nothing
/// is sent. The active screen and the cursor stay where they are.
pub proof fn lemma_input_forwarded_unchanged(v: CoordView, ie: InputEvent, w: CoordView, out: Seq<OutputView>)
    requires
        !(ie is MouseMove),
        coord_step(v, EventView::LocalInput(ie), w, out),
    ensures
        w.active == v.active,
        w.cursor == v.cursor,
        w.seq == v.seq,
        v.active == v.local ==> out.len() == 0,
        v.active != v.local ==> out.len() == 1 && (out[0] matches OutputView::Send { to, .. } && to == v.active),
        v.active != v.local ==> match ie {
            InputEvent::KeyDown { key, mods } => out[0]->Send_msg == (MessageView::KeyDown { key, mods }),
            InputEvent::KeyUp { key, mods } => out[0]->Send_msg == (MessageView::KeyUp { key, mods }),
            InputEvent::MouseButton { button, down } => out[0]->Send_msg == (MessageView::MouseButton {
                button,
                down,
            }),
            InputEvent::MouseWheel { dx, dy } => out[0]->Send_msg == (MessageView::MouseWheel { dx, dy }),
            InputEvent::MouseMove { .. } => true,
        },
{
}

/// Is `o` pointer motion sent to a screen?
pub open spec fn is_motion(o: OutputView) -> bool {
    o matches OutputView::Send { msg: MessageView::MouseMove { .. }, .. }
}

/// Nothing the held state releases or re-presses is pointer motion.
proof fn lemma_held_msgs_not_motion(h: HeldView)
    ensures
        forall|i: int| 0 <= i < leave_msgs(h).len() ==> !(#[trigger] leave_msgs(h)[i] is MouseMove),
        forall|i: int| 0 <= i < enter_msgs(h).len() ==> !(#[trigger] enter_msgs(h)[i] is MouseMove),
{
    let a = key_up_msgs(h.keys);
    let b = button_up_msgs(h.buttons);
    let c = key_up_msgs(held_modifier_keys(h.mods.0, 8));
    assert forall|i: int| 0 <= i < leave_msgs(h).len() implies !(#[trigger] leave_msgs(h)[i] is MouseMove) by {
        assert(leave_msgs(h) == a + b + c);
        if i < a.len() {
            assert((a + b + c)[i] == a[i]);
        } else if i < a.len() + b.len() {
            assert((a + b + c)[i] == b[i - a.len()]);
        } else {
            assert((a + b + c)[i] == c[i - a.len() - b.len()]);
        }
    }
}

/// A crossing sends no pointer motion.
proof fn lemma_cross_sends_no_motion(v: CoordView, target: Seq<char>, nc: (i32, i32))
    ensures
        forall|i: int|
            0 <= i < cross(v, target, nc).1.len() ==> !(is_motion(#[trigger] cross(v, target, nc).1[i])),
{
    lemma_held_msgs_not_motion(v.held);
    let lm = leave_msgs(v.held);
    let leave = if is_remote(v) {
        sends(v.active, lm).push(OutputView::Send { to: v.active, msg: MessageView::ScreenLeave })
    } else {
        Seq::empty()
    };
    assert forall|i: int| 0 <= i < leave.len() implies !(is_motion(#[trigger] leave[i])) by {
        if i < lm.len() {
            assert(leave[i] == sends(v.active, lm)[i]);
        }
    }
    let out = cross(v, target, nc).1;
    if target != v.local {
        match named(v.layout, target) {
            None => {
                assert forall|i: int| 0 <= i < out.len() implies !(is_motion(#[trigger] out[i])) by {
                    if i < leave.len() {
                        assert(out[i] == leave[i]);
                    }
                }
            },
            Some(e) => {
                if listed(v.clients, target) {
                    let p = to_local_spec(nc, e);
                    let enter = OutputView::Send {
                        to: target,
                        msg: MessageView::ScreenEnter { x: p.0, y: p.1, seq: next_seq(v.seq), mask: v.held.mods },
                    };
                    let em = enter_msgs(v.held);
                    assert(out == leave.push(enter) + sends(target, em));
                    assert forall|i: int| 0 <= i < out.len() implies !(is_motion(#[trigger] out[i])) by {
                        if i < leave.len() {
                            assert(out[i] == leave[i]);
                        } else if i == leave.len() {
                            assert(out[i] == enter);
                        } else {
                            assert(out[i] == sends(target, em)[i - leave.len() - 1]);
                        }
                    }
                } else {
                    assert forall|i: int| 0 <= i < out.len() implies !(is_motion(#[trigger] out[i])) by {
                        if i < leave.len() {
                            assert(out[i] == leave[i]);
                        }
                    }
                }
            },
        }
    }
}

/// `l` is `c - o` as an `i32`, saturated at the ends of the range.
pub open spec fn offset_from(l: i32, c: int, o: int) -> bool {
    ||| l == c - o
    ||| (c - o > i32::MAX && l == i32::MAX)
    ||| (c - o < i32::MIN && l == i32::MIN)
}

/// Pointer motion reaches a remote screen in that screen's own
/// coordinates: every `MouseMove` an absolute platform move sends goes to
/// the active screen, which stays active and is remote and in the
/// layout, and carries the new virtual cursor minus that screen's origin
/// (inside the screen's rectangle whenever the cursor is).
pub proof fn lemma_pointer_motion_is_screen_local(v: CoordView, x: i32, y: i32)
    ensures
        forall|i: int|
            0 <= i < mouse_move(v, x, y).1.len() && is_motion(#[trigger] mouse_move(v, x, y).1[i]) ==> ({
                let w = mouse_move(v, x, y).0;
                let o = mouse_move(v, x, y).1[i];
                &&& o->Send_to == v.active
                &&& w.active == v.active
                &&& v.active != v.local
                &&& named(v.layout, v.active) matches Some(e) && {
                    let lx = o->Send_msg->MouseMove_x;
                    let ly = o->Send_msg->MouseMove_y;
                    &&& offset_from(lx, w.cursor.0 as int, e.origin_x as int)
                    &&& offset_from(ly, w.cursor.1 as int, e.origin_y as int)
                    &&& (e.origin_x <= w.cursor.0 < e.origin_x + e.width ==> 0 <= lx < e.width)
                    &&& (e.origin_y <= w.cursor.1 < e.origin_y + e.height ==> 0 <= ly < e.height)
                }
            }),
{
    let d = match v.last_pos {
        Some(p) => (sat_i32(x - p.0), sat_i32(y - p.1)),
        None => (0i32, 0i32),
    };
    let nc = (sat_i32(v.cursor.0 + d.0), sat_i32(v.cursor.1 + d.1));
    let v1 = CoordView { last_pos: Some((x, y)), ..v };
    if v.held.buttons.len() == 0 {
        match located(v.layout, nc.0, nc.1) {
            Some(t) => {
                if t.name != v.active {
                    lemma_cross_sends_no_motion(v1, t.name, nc);
                }
            },
            None => {},
        }
    }
}

/// Clipboard grabs and data are never echoed back to the peer that sent
/// them.
pub proof fn lemma_broadcast_never_echoes(cs: Seq<ClientView>, from: Seq<char>, m: MessageView)
    ensures
        forall|i: int|
            0 <= i < broadcast(cs, from, m).len() ==> ((#[trigger] broadcast(cs, from, m)[i])
                matches OutputView::Send { to, .. } && to != from),
{
    assert forall|i: int| 0 <= i < broadcast(cs, from, m).len() implies (#[trigger] broadcast(
        cs,
        from,
        m,
    )[i]) matches OutputView::Send { to, .. } && to != from by {
        lemma_broadcast_targets(cs, from, m, i);
    }
}

proof fn lemma_cross_routed(v: CoordView, target: Seq<char>, nc: (i32, i32))
    ensures
        forall|i: int|
            0 <= i < cross(v, target, nc).1.len() ==> transition_routed(
                v,
                #[trigger] cross(v, target, nc).1[i],
            ),
{
    lemma_held_msgs_plain(v.held);
    let lm = leave_msgs(v.held);
    let leave = if is_remote(v) {
        sends(v.active, lm).push(OutputView::Send { to: v.active, msg: MessageView::ScreenLeave })
    } else {
        Seq::empty()
    };
    assert forall|i: int| 0 <= i < leave.len() implies transition_routed(v, #[trigger] leave[i]) by {
        if i < lm.len() {
            assert(leave[i] == sends(v.active, lm)[i]);
            assert(!is_transition(lm[i]));
        }
    }
    let out = cross(v, target, nc).1;
    if target != v.local {
        match named(v.layout, target) {
            None => {
                assert forall|i: int| 0 <= i < out.len() implies transition_routed(v, #[trigger] out[i]) by {
                    if i < leave.len() {
                        assert(out[i] == leave[i]);
                    }
                }
            },
            Some(e) => {
                if listed(v.clients, target) {
                    let p = to_local_spec(nc, e);
                    let s2 = next_seq(v.seq);
                    let enter = OutputView::Send {
                        to: target,
                        msg: MessageView::ScreenEnter { x: p.0, y: p.1, seq: s2, mask: v.held.mods },
                    };
                    let em = enter_msgs(v.held);
                    assert(out == leave.push(enter) + sends(target, em));
                    assert forall|i: int| 0 <= i < out.len() implies transition_routed(
                        v,
                        #[trigger] out[i],
                    ) by {
                        if i < leave.len() {
                            assert(out[i] == leave[i]);
                        } else if i == leave.len() {
                            assert(out[i] == enter);
                        } else {
                            assert(out[i] == sends(target, em)[i - leave.len() - 1]);
                            assert(!is_transition(em[i - leave.len() - 1]));
                        }
                    }
                } else {
                    assert forall|i: int| 0 <= i < out.len() implies transition_routed(
                        v,
                        #[trigger] out[i],
                    ) by {
                        if i < leave.len() {
                            assert(out[i] == leave[i]);
                        }
                    }
                }
            },
        }
    }
}

/// Screen transitions are addressed correctly: a coordinator only tells
/// a connected client (never the local screen) to take over, and only
/// tells the screen that was active, when it was remote, to let go.
pub proof fn lemma_transitions_routed(v: CoordView, e: EventView, w: CoordView, out: Seq<OutputView>)
    requires
        coord_step(v, e, w, out),
    ensures
        forall|i: int| 0 <= i < out.len() ==> transition_routed(v, #[trigger] out[i]),
{
    match e {
        EventView::LocalInput(InputEvent::MouseMove { x, y }) => {
            let d = match v.last_pos {
                Some(p) => (sat_i32(x - p.0), sat_i32(y - p.1)),
                None => (0i32, 0i32),
            };
            let nc = (sat_i32(v.cursor.0 + d.0), sat_i32(v.cursor.1 + d.1));
            let v1 = CoordView { last_pos: Some((x, y)), ..v };
            if v.held.buttons.len() == 0 {
                match located(v.layout, nc.0, nc.1) {
                    Some(t) => {
                        if t.name != v.active {
                            lemma_cross_routed(v1, t.name, nc);
                            assert forall|i: int| 0 <= i < out.len() implies transition_routed(
                                v,
                                #[trigger] out[i],
                            ) by {
                                assert(transition_routed(v1, cross(v1, t.name, nc).1[i]));
                            }
                        }
                    },
                    None => {},
                }
            }
        },
        EventView::PeerMessage { from, msg } => {
            match msg {
                MessageView::ClipboardGrab { .. } => {
                    if grab_accepted(v.grabs, msg->ClipboardGrab_id, msg->ClipboardGrab_seq) {
                        assert forall|i: int| 0 <= i < out.len() implies transition_routed(
                            v,
                            #[trigger] out[i],
                        ) by {
                            lemma_broadcast_targets(v.clients, from, msg, i);
                        }
                    }
                },
                MessageView::ClipboardData { .. } => {
                    let b = broadcast(v.clients, from, msg);
                    assert forall|i: int| 0 <= i < out.len() implies transition_routed(
                        v,
                        #[trigger] out[i],
                    ) by {
                        if i < b.len() {
                            lemma_broadcast_targets(v.clients, from, msg, i);
                            assert(out[i] == b[i]);
                        }
                    }
                },
                _ => {},
            }
        },
        _ => {},
    }
}

/// The transition seq only ever stays put or advances by one (wrapping)
/// per event.
pub proof fn lemma_seq_steps_by_one(v: CoordView, e: EventView, w: CoordView, out: Seq<OutputView>)
    requires
        coord_step(v, e, w, out),
    ensures
        w.seq == v.seq || w.seq == next_seq(v.seq),
{
}

/// While a mouse button is held the cursor never leaves the active
/// screen: a drag stays where it started, the seq does not move, and at
/// most a pinned `MouseMove` goes to the active screen.
pub proof fn lemma_drag_never_crosses(v: CoordView, x: i32, y: i32)
    requires
        v.held.buttons.len() > 0,
    ensures
        mouse_move(v, x, y).0.active == v.active,
        mouse_move(v, x, y).0.seq == v.seq,
        mouse_move(v, x, y).1.len() <= 1,
        mouse_move(v, x, y).1.len() == 1 ==> (mouse_move(v, x, y).1[0] matches OutputView::Send {
            to,
            msg: MessageView::MouseMove { .. },
        } && to == v.active),
{
}

/// Released keys and buttons are forgotten once a crossing is done: the
/// state it leaves holds none (the modifier mask stays), so leaving the
/// next screen releases only the held modifiers.
pub proof fn lemma_crossing_forgets_released(v: CoordView, target: Seq<char>, nc: (i32, i32))
    ensures
        cross(v, target, nc).0.held.keys.len() == 0,
        cross(v, target, nc).0.held.buttons.len() == 0,
        cross(v, target, nc).0.held.mods == v.held.mods,
        leave_msgs(cross(v, target, nc).0.held) == key_up_msgs(held_modifier_keys(v.held.mods.0, 8)),
{
    let h = cross(v, target, nc).0.held;
    assert(key_up_msgs(h.keys) =~= Seq::<MessageView>::empty());
    assert(button_up_msgs(h.buttons) =~= Seq::<MessageView>::empty());
    assert(leave_msgs(h) =~= key_up_msgs(held_modifier_keys(v.held.mods.0, 8)));
}

/// A clipboard grab that is not newer than the recorded one changes
/// nothing and announces nothing.
pub proof fn lemma_stale_grab_ignored(v: CoordView, from: Seq<char>, id: ClipboardId, seq: u32)
    requires
        !grab_accepted(v.grabs, id, seq),
    ensures
        peer_message(v, from, MessageView::ClipboardGrab { id, seq }) == (v, Seq::<OutputView>::empty()),
{
}

/// A client that disconnects is forgotten: it is no longer routable,
/// no longer recorded outside the layout, owns no clipboard any more,
/// and input that was routed to it goes back to the local screen.
pub proof fn lemma_disconnect_forgets_client(v: CoordView, name: Seq<char>, w: CoordView, out: Seq<OutputView>)
    requires
        coord_step(v, EventView::ClientDisconnected { name }, w, out),
    ensures
        !listed(w.clients, name),
        !listed(w.orphans, name),
        forall|id: ClipboardId| #[trigger] w.grabs.dom().contains(id) ==> w.grabs[id].owner != name,
        v.active == name ==> w.active == v.local,
{
    let pred = |c: ClientView| c.name != name;
    if listed(w.clients, name) {
        let i = choose|i: int| 0 <= i < w.clients.len() && (#[trigger] w.clients[i]).name == name;
        v.clients.lemma_filter_pred(pred, i);
    }
    if listed(w.orphans, name) {
        let i = choose|i: int| 0 <= i < w.orphans.len() && (#[trigger] w.orphans[i]).name == name;
        v.orphans.lemma_filter_pred(pred, i);
    }
}

} // verus!
