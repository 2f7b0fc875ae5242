//! Routing around the coordinator.
//!
//! The driver owns the [`Coordinator`] and the set of clients that have an
//! outbound queue. Every command goes through one place, so a client is
//! always registered before any of its messages is seen. Coordinator
//! outputs become [`Delivery`]s: a `Send` to a client with a queue, a
//! message for the local platform, or a log line. A `Send` to a client
//! without a queue is dropped. A departing client loses its queue before
//! the coordinator sees the departure, so no late output can reach it;
//! a client whose queue refused a message (full or closed) loses its
//! queue too.
//!
//! The platform side turns each locally injected message into the
//! backend calls it stands for.

use std::sync::Arc;

use vstd::prelude::*;

use crate::common::{ClipboardFormat, ClipboardId};
use crate::coordinator::{
    coord_step, out_views, Coordinator, CoordinatorEvent, CoordinatorOutput, CoordView, EventView,
    OutputView,
};
use crate::layout::{ScreenLayout, ScreenName};
use crate::platform::InjectedEvent;
use crate::protocol::{Capability, Message, MessageView};
use crate::text::{copy_string, str_eq};

verus! {

/// Everything the driver accepts.
#[derive(Debug)]
pub enum CoordinatorCommand {
    /// A state-machine event (peer message, disconnect, local input).
    Event(CoordinatorEvent),
    /// A peer finished its handshake and now has an outbound queue.
    RegisterClient {
        /// Display name from `Hello`.
        name: ScreenName,
        /// Capabilities advertised in `Hello`.
        capabilities: Vec<Capability>,
    },
}

/// Mathematical value of a [`CoordinatorCommand`].
pub enum CommandView {
    Event(EventView),
    RegisterClient { name: Seq<char>, capabilities: Seq<Capability> },
}

impl View for CoordinatorCommand {
    type V = CommandView;

    open spec fn view(&self) -> CommandView {
        match self {
            CoordinatorCommand::Event(e) => CommandView::Event(e@),
            CoordinatorCommand::RegisterClient { name, capabilities } => CommandView::RegisterClient {
                name: name@,
                capabilities: capabilities@,
            },
        }
    }
}

/// Where one coordinator output goes.
#[derive(Debug)]
pub enum Delivery {
    /// Into the outbound queue of client `to`.
    ToClient { to: ScreenName, msg: Message },
    /// To the local platform dispatcher.
    ToPlatform(Message),
    /// To the log, as a warning.
    Log(String),
}

/// Mathematical value of a [`Delivery`].
pub enum DeliveryView {
    ToClient { to: Seq<char>, msg: MessageView },
    ToPlatform(MessageView),
    Log(Seq<char>),
}

impl View for Delivery {
    type V = DeliveryView;

    open spec fn view(&self) -> DeliveryView {
        match self {
            Delivery::ToClient { to, msg } => DeliveryView::ToClient { to: to@, msg: msg@ },
            Delivery::ToPlatform(m) => DeliveryView::ToPlatform(m@),
            Delivery::Log(t) => DeliveryView::Log(t@),
        }
    }
}

/// Views of a delivery list.
pub open spec fn delivery_views(s: Seq<Delivery>) -> Seq<DeliveryView> {
    s.map_values(|d: Delivery| d@)
}

/// The event the coordinator sees for a command.
pub open spec fn command_event(c: CommandView) -> EventView {
    match c {
        CommandView::Event(e) => e,
        CommandView::RegisterClient { name, capabilities } => EventView::ClientConnected {
            name,
            capabilities,
        },
    }
}

/// Add a queue for `n`.
pub open spec fn with_route(rs: Seq<Seq<char>>, n: Seq<char>) -> Seq<Seq<char>> {
    if rs.contains(n) {
        rs
    } else {
        rs.push(n)
    }
}

/// Drop the queue of `n`.
pub open spec fn without_route(rs: Seq<Seq<char>>, n: Seq<char>) -> Seq<Seq<char>> {
    rs.filter(|r: Seq<char>| r != n)
}

/// The queues after a command, before the coordinator runs.
pub open spec fn routes_after(rs: Seq<Seq<char>>, c: CommandView) -> Seq<Seq<char>> {
    match c {
        CommandView::RegisterClient { name, .. } => with_route(rs, name),
        CommandView::Event(EventView::ClientDisconnected { name }) => without_route(rs, name),
        _ => rs,
    }
}

/// Where the outputs `outs` go, given the clients with a queue.
pub open spec fn deliveries(outs: Seq<OutputView>, rs: Seq<Seq<char>>) -> Seq<DeliveryView>
    decreases outs.len(),
{
    if outs.len() == 0 {
        Seq::empty()
    } else {
        let rest = deliveries(outs.drop_last(), rs);
        match outs.last() {
            OutputView::Send { to, msg } => if rs.contains(to) {
                rest.push(DeliveryView::ToClient { to, msg })
            } else {
                rest
            },
            OutputView::InjectLocal(m) => rest.push(DeliveryView::ToPlatform(m)),
            OutputView::Warn(t) => rest.push(DeliveryView::Log(t)),
        }
    }
}

/// Mathematical value of a [`CoordinatorDriver`].
pub struct DriverView {
    pub coord: CoordView,
    pub routes: Seq<Seq<char>>,
}

/// The coordinator together with the clients that have an outbound queue.
#[derive(Debug)]
pub struct CoordinatorDriver {
    coord: Coordinator,
    routes: Vec<String>,
}

/// Names of a route list.
pub open spec fn route_names(v: Seq<String>) -> Seq<Seq<char>> {
    v.map_values(|s: String| s@)
}

impl View for CoordinatorDriver {
    type V = DriverView;

    closed spec fn view(&self) -> DriverView {
        DriverView { coord: self.coord@, routes: route_names(self.routes@) }
    }
}

fn has_route(routes: &Vec<String>, name: &str) -> (r: bool)
    ensures
        r == route_names(routes@).contains(name@),
{
    let ghost rs = route_names(routes@);
    let n = routes.len();
    let mut i: usize = 0;
    while i < n
        invariant
            n == routes@.len(),
            rs == route_names(routes@),
            i <= n,
            forall|j: int| 0 <= j < i ==> rs[j] != name@,
        decreases n - i,
    {
        if str_eq(routes[i].as_str(), name) {
            assert(rs[i as int] == name@);
            return true;
        }
        i = i + 1;
    }
    false
}

fn add_route(routes: &mut Vec<String>, name: &str)
    ensures
        route_names(final(routes)@) == with_route(route_names(old(routes)@), name@),
{
    if !has_route(routes, name) {
        routes.push(name.to_string());
        assert(route_names(routes@) =~= route_names(old(routes)@).push(name@));
    }
}

fn remove_route(routes: &mut Vec<String>, name: &str)
    ensures
        route_names(final(routes)@) == without_route(route_names(old(routes)@), name@),
{
    let ghost rs = route_names(old(routes)@);
    let mut kept: Vec<String> = Vec::new();
    let n = routes.len();
    let mut i: usize = 0;
    while i < n
        invariant
            n == routes@.len(),
            rs == route_names(routes@),
            i <= n,
            route_names(kept@) == without_route(rs.subrange(0, i as int), name@),
        decreases n - i,
    {
        proof {
            reveal(Seq::filter);
            assert(rs.subrange(0, i + 1).drop_last() =~= rs.subrange(0, i as int));
        }
        if !str_eq(routes[i].as_str(), name) {
            let ghost before = route_names(kept@);
            kept.push(copy_string(&routes[i]));
            assert(route_names(kept@) =~= before.push(rs[i as int]));
        }
        i = i + 1;
    }
    assert(rs.subrange(0, n as int) =~= rs);
    *routes = kept;
}

fn route_outputs(outs: Vec<CoordinatorOutput>, routes: &Vec<String>) -> (d: Vec<Delivery>)
    ensures
        delivery_views(d@) == deliveries(out_views(outs@), route_names(routes@)),
{
    let ghost all = out_views(outs@);
    let ghost rs = route_names(routes@);
    let mut rest = outs;
    let mut d: Vec<Delivery> = Vec::new();
    let ghost mut k: int = 0;
    while rest.len() > 0
        invariant
            0 <= k <= all.len(),
            out_views(rest@) == all.subrange(k, all.len() as int),
            delivery_views(d@) == deliveries(all.subrange(0, k), rs),
            rs == route_names(routes@),
        decreases rest.len(),
    {
        let ghost r0 = rest@;
        assert(out_views(r0).len() == r0.len());
        assert(out_views(r0)[0] == r0[0]@);
        assert(all.subrange(k, all.len() as int)[0] == all[k]);
        let o = rest.remove(0);
        let ghost dv = delivery_views(d@);
        assert(o@ == all[k]);
        assert(all.subrange(0, k + 1).drop_last() =~= all.subrange(0, k));
        assert(all.subrange(0, k + 1).last() == all[k]);
        match o {
            CoordinatorOutput::Send { to, msg } => {
                if has_route(routes, to.as_str()) {
                    d.push(Delivery::ToClient { to, msg });
                    assert(delivery_views(d@) =~= dv.push(
                        DeliveryView::ToClient { to: all[k]->Send_to, msg: all[k]->Send_msg },
                    ));
                }
            },
            CoordinatorOutput::InjectLocal(m) => {
                d.push(Delivery::ToPlatform(m));
                assert(delivery_views(d@) =~= dv.push(DeliveryView::ToPlatform(all[k]->InjectLocal_0)));
            },
            CoordinatorOutput::Warn(t) => {
                d.push(Delivery::Log(t));
                assert(delivery_views(d@) =~= dv.push(DeliveryView::Log(all[k]->Warn_0)));
            },
        }
        proof {
            assert(rest@ =~= r0.subrange(1, r0.len() as int));
            assert(out_views(rest@) =~= out_views(r0).subrange(1, r0.len() as int));
            k = k + 1;
            assert(out_views(rest@) =~= all.subrange(k, all.len() as int));
        }
    }
    assert(all.subrange(0, k) =~= all);
    d
}

impl CoordinatorDriver {
    /// A driver around `coord`, with no client queue.
    pub fn new(coord: Coordinator) -> (d: CoordinatorDriver)
        ensures
            d@.coord == coord@,
            d@.routes.len() == 0,
    {
        let d = CoordinatorDriver { coord, routes: Vec::new() };
        assert(d@.routes =~= Seq::<Seq<char>>::empty());
        d
    }

    /// The coordinator.
    pub fn coordinator(&self) -> (c: &Coordinator)
        ensures
            c@ == self@.coord,
    {
        &self.coord
    }

    /// Does `name` have an outbound queue?
    pub fn has_queue(&self, name: &str) -> (r: bool)
        ensures
            r == self@.routes.contains(name@),
    {
        has_route(&self.routes, name)
    }

    /// Apply one command: update the queues (a registration adds one, a
    /// disconnect drops one before the coordinator runs), feed the
    /// coordinator, and route every output it produced, in order.
    pub fn on_command(&mut self, cmd: CoordinatorCommand) -> (d: Vec<Delivery>)
        ensures
            final(self)@.routes == routes_after(old(self)@.routes, cmd@),
            exists|out: Seq<OutputView>|
                coord_step(old(self)@.coord, command_event(cmd@), final(self)@.coord, out)
                    && delivery_views(d@) == deliveries(out, final(self)@.routes),
    {
        let ghost c = cmd@;
        let ghost v = self.coord@;
        let event = match cmd {
            CoordinatorCommand::RegisterClient { name, capabilities } => {
                add_route(&mut self.routes, name.as_str());
                CoordinatorEvent::ClientConnected { name, capabilities }
            },
            CoordinatorCommand::Event(e) => {
                if let CoordinatorEvent::ClientDisconnected { name } = &e {
                    remove_route(&mut self.routes, name.as_str());
                }
                e
            },
        };
        assert(event@ == command_event(c));
        let mut buf: Vec<CoordinatorOutput> = Vec::new();
        self.coord.on_event(event, &mut buf);
        let ghost out = out_views(buf@);
        assert(out_views(buf@).subrange(0, out_views(buf@).len() as int) =~= out);
        let d = route_outputs(buf, &self.routes);
        assert(coord_step(v, command_event(c), self@.coord, out) && delivery_views(d@) == deliveries(
            out,
            self@.routes,
        ));
        d
    }

    /// Read the layout from this snapshot from now on.
    pub fn set_layout(&mut self, layout: Arc<ScreenLayout>)
        ensures
            final(self)@ == (DriverView {
                coord: CoordView { layout: layout@, ..old(self)@.coord },
                ..old(self)@
            }),
    {
        self.coord.set_layout(layout);
    }

    /// The queue of `name` refused a message (full or closed): drop it.
    pub fn delivery_failed(&mut self, name: &str)
        ensures
            final(self)@ == (DriverView {
                routes: without_route(old(self)@.routes, name@),
                ..old(self)@
            }),
    {
        remove_route(&mut self.routes, name);
    }
}

/// A delivery to a client only ever goes to a client with a queue.
pub proof fn lemma_deliveries_only_to_queues(outs: Seq<OutputView>, rs: Seq<Seq<char>>, i: int)
    requires
        0 <= i < deliveries(outs, rs).len(),
        deliveries(outs, rs)[i] is ToClient,
    ensures
        rs.contains(deliveries(outs, rs)[i]->ToClient_to),
    decreases outs.len(),
{
    if outs.len() > 0 {
        let rest = deliveries(outs.drop_last(), rs);
        if i < rest.len() {
            lemma_deliveries_only_to_queues(outs.drop_last(), rs, i);
        }
    }
}

/// Once a client's departure has been processed, nothing produced by
/// that command is delivered to it.
pub proof fn lemma_departed_client_gets_nothing(
    rs: Seq<Seq<char>>,
    name: Seq<char>,
    outs: Seq<OutputView>,
    i: int,
)
    requires
        0 <= i < deliveries(outs, without_route(rs, name)).len(),
    ensures
        deliveries(outs, without_route(rs, name))[i] matches DeliveryView::ToClient { to, .. } ==> to
            != name,
{
    let after = without_route(rs, name);
    if deliveries(outs, after)[i] is ToClient {
        lemma_deliveries_only_to_queues(outs, after, i);
        let to = deliveries(outs, after)[i]->ToClient_to;
        if to == name {
            let pred = |r: Seq<char>| r != name;
            let j = choose|j: int| 0 <= j < after.len() && after[j] == to;
            rs.lemma_filter_pred(pred, j);
        }
    }
}

// ---- platform side ---------------------------------------------------

/// One call into the local platform backend.
#[derive(Debug)]
pub enum PlatformCall {
    /// Synthesize a key, button, move or wheel event.
    Inject(InjectedEvent),
    /// Replace a clipboard's contents in one format.
    SetClipboard { id: ClipboardId, format: ClipboardFormat, data: Vec<u8> },
}

/// Mathematical value of a [`PlatformCall`].
pub enum PlatformCallView {
    Inject(InjectedEvent),
    SetClipboard { id: ClipboardId, format: ClipboardFormat, data: Seq<u8> },
}

impl View for PlatformCall {
    type V = PlatformCallView;

    open spec fn view(&self) -> PlatformCallView {
        match self {
            PlatformCall::Inject(e) => PlatformCallView::Inject(*e),
            PlatformCall::SetClipboard { id, format, data } => PlatformCallView::SetClipboard {
                id: *id,
                format: *format,
                data: data@,
            },
        }
    }
}

/// Views of a call list.
pub open spec fn call_views(s: Seq<PlatformCall>) -> Seq<PlatformCallView> {
    s.map_values(|c: PlatformCall| c@)
}

/// The backend calls a locally injected message stands for: key, button,
/// move and wheel messages are synthesized (a repeat as that many
/// presses), clipboard data is written to the local clipboard, and every
/// other message needs no local action.
pub open spec fn platform_plan(m: MessageView) -> Seq<PlatformCallView> {
    match m {
        MessageView::KeyDown { key, mods } => seq![
            PlatformCallView::Inject(InjectedEvent::Key { key, mods, down: true }),
        ],
        MessageView::KeyUp { key, mods } => seq![
            PlatformCallView::Inject(InjectedEvent::Key { key, mods, down: false }),
        ],
        MessageView::KeyRepeat { key, mods, count } => Seq::new(
            count as nat,
            |i: int| PlatformCallView::Inject(InjectedEvent::Key { key, mods, down: true }),
        ),
        MessageView::MouseMove { x, y } => seq![
            PlatformCallView::Inject(InjectedEvent::MouseMove { x, y }),
        ],
        MessageView::MouseButton { button, down } => seq![
            PlatformCallView::Inject(InjectedEvent::MouseButton { button, down }),
        ],
        MessageView::MouseWheel { dx, dy } => seq![
            PlatformCallView::Inject(InjectedEvent::MouseWheel { dx, dy }),
        ],
        MessageView::ClipboardData { id, format, data } => seq![
            PlatformCallView::SetClipboard { id, format, data },
        ],
        _ => Seq::empty(),
    }
}

/// The backend calls for one locally injected message (see
/// [`platform_plan`]).
pub fn platform_calls(msg: Message) -> (calls: Vec<PlatformCall>)
    ensures
        call_views(calls@) == platform_plan(msg@),
{
    let ghost m = msg@;
    let mut calls: Vec<PlatformCall> = Vec::new();
    match msg {
        Message::KeyDown { key, mods } => {
            calls.push(PlatformCall::Inject(InjectedEvent::Key { key, mods, down: true }));
        },
        Message::KeyUp { key, mods } => {
            calls.push(PlatformCall::Inject(InjectedEvent::Key { key, mods, down: false }));
        },
        Message::KeyRepeat { key, mods, count } => {
            let mut i: u16 = 0;
            while i < count
                invariant
                    i <= count,
                    call_views(calls@) == Seq::new(
                        i as nat,
                        |j: int| PlatformCallView::Inject(InjectedEvent::Key { key, mods, down: true }),
                    ),
                decreases count - i,
            {
                let ghost before = call_views(calls@);
                calls.push(PlatformCall::Inject(InjectedEvent::Key { key, mods, down: true }));
                assert(call_views(calls@) =~= before.push(
                    PlatformCallView::Inject(InjectedEvent::Key { key, mods, down: true }),
                ));
                i = i + 1;
                assert(call_views(calls@) =~= Seq::new(
                    i as nat,
                    |j: int| PlatformCallView::Inject(InjectedEvent::Key { key, mods, down: true }),
                ));
            }
        },
        Message::MouseMove { x, y } => {
            calls.push(PlatformCall::Inject(InjectedEvent::MouseMove { x, y }));
        },
        Message::MouseButton { button, down } => {
            calls.push(PlatformCall::Inject(InjectedEvent::MouseButton { button, down }));
        },
        Message::MouseWheel { dx, dy } => {
            calls.push(PlatformCall::Inject(InjectedEvent::MouseWheel { dx, dy }));
        },
        Message::ClipboardData { id, format, data } => {
            calls.push(PlatformCall::SetClipboard { id, format, data });
        },
        _ => {},
    }
    assert(call_views(calls@) =~= platform_plan(m));
    calls
}

} // verus!
