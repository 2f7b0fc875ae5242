//! Per-peer session decisions.
//!
//! A connected peer is served by a loop that waits on several sources at
//! once: the shutdown signal, the coordinator's outbound queue for this
//! peer, the peer's own frames, and the keep-alive timer. Whatever fires
//! first becomes a [`PeerEvent`]; this module decides what the loop does
//! with it. Handshake-level traffic (`KeepAlive`, `Disconnect`) never
//! reaches the coordinator, and every way out of the loop is either a
//! clean close (with a best-effort `Disconnect` to the peer) or a framing
//! error.

use vstd::prelude::*;

use crate::platform::ScreenInfo;
use crate::protocol::{
    Capability, DeviceInfoPayload, DisconnectReason, HelloPayload, HelloPayloadView, Message,
    ProtocolError, PROTOCOL_VERSION,
};

verus! {

/// Errors a client proxy can end with.
#[derive(Debug)]
pub enum ProxyError {
    /// Protocol-framing error on the peer stream.
    Protocol(ProtocolError),
    /// The coordinator no longer accepts events.
    CoordinatorGone,
}

/// One thing that happened to a peer session.
#[derive(Debug)]
pub enum PeerEvent {
    /// The local operator asked the server to stop.
    ShutdownRequested,
    /// The coordinator queued a message for this peer.
    Outbound(Message),
    /// The coordinator dropped this peer's outbound queue.
    OutboundClosed,
    /// A frame arrived from the peer and decoded.
    Inbound(Message),
    /// The peer stream produced a framing error.
    InboundFailed(ProtocolError),
    /// The peer closed its stream.
    PeerClosed,
    /// The keep-alive timer fired; `timed_out` says whether the peer has
    /// been silent for longer than the keep-alive timeout.
    KeepAliveTick { timed_out: bool },
}

/// What the session loop does next.
#[derive(Debug)]
pub enum PeerAction {
    /// Write the message to the peer and keep going.
    Send(Message),
    /// Hand the message to the coordinator as coming from this peer and
    /// keep going.
    Forward(Message),
    /// Nothing to do; keep going.
    Continue,
    /// Send `Disconnect` with the given reason to the peer if there is
    /// one (best effort), then end cleanly.
    Close(Option<DisconnectReason>),
    /// End with this framing error.
    Fail(ProtocolError),
}

/// The decision for one event.
#[derive(Debug)]
pub struct PeerStep {
    /// What to do.
    pub action: PeerAction,
    /// Whether the event proves the peer is alive (resets the keep-alive
    /// timeout).
    pub peer_seen: bool,
}

/// How a proxy that forwards peer traffic to the coordinator reacts.
pub open spec fn proxy_reaction(e: PeerEvent) -> PeerAction {
    match e {
        PeerEvent::ShutdownRequested => PeerAction::Close(Some(DisconnectReason::UserInitiated)),
        PeerEvent::Outbound(m) => PeerAction::Send(m),
        PeerEvent::OutboundClosed => PeerAction::Close(Some(DisconnectReason::InternalError)),
        PeerEvent::Inbound(m) => match m {
            Message::KeepAlive => PeerAction::Continue,
            Message::Disconnect { .. } => PeerAction::Close(None),
            _ => PeerAction::Forward(m),
        },
        PeerEvent::InboundFailed(err) => PeerAction::Fail(err),
        PeerEvent::PeerClosed => PeerAction::Close(None),
        PeerEvent::KeepAliveTick { timed_out } => if timed_out {
            PeerAction::Close(Some(DisconnectReason::KeepAliveTimeout))
        } else {
            PeerAction::Send(Message::KeepAlive)
        },
    }
}

/// How a bare session (handshake done, no coordinator attached) reacts:
/// peer messages other than `Disconnect` are only observed.
pub open spec fn session_reaction(e: PeerEvent) -> PeerAction {
    match e {
        PeerEvent::Inbound(m) => match m {
            Message::Disconnect { .. } => PeerAction::Close(None),
            _ => PeerAction::Continue,
        },
        _ => proxy_reaction(e),
    }
}

/// Whether the event is session traffic that a bare session never sees.
pub open spec fn is_queue_event(e: PeerEvent) -> bool {
    e is Outbound || e is OutboundClosed
}

/// The decision of a coordinator-attached proxy.
pub fn proxy_step(event: PeerEvent) -> (step: PeerStep)
    ensures
        step.action == proxy_reaction(event),
        step.peer_seen == event is Inbound,
{
    let seen = matches!(event, PeerEvent::Inbound(_));
    let action = match event {
        PeerEvent::ShutdownRequested => PeerAction::Close(Some(DisconnectReason::UserInitiated)),
        PeerEvent::Outbound(m) => PeerAction::Send(m),
        PeerEvent::OutboundClosed => PeerAction::Close(Some(DisconnectReason::InternalError)),
        PeerEvent::Inbound(m) => match m {
            Message::KeepAlive => PeerAction::Continue,
            Message::Disconnect { .. } => PeerAction::Close(None),
            other => PeerAction::Forward(other),
        },
        PeerEvent::InboundFailed(err) => PeerAction::Fail(err),
        PeerEvent::PeerClosed => PeerAction::Close(None),
        PeerEvent::KeepAliveTick { timed_out } => {
            if timed_out {
                PeerAction::Close(Some(DisconnectReason::KeepAliveTimeout))
            } else {
                PeerAction::Send(Message::KeepAlive)
            }
        },
    };
    PeerStep { action, peer_seen: seen }
}

/// The decision of a bare session loop, which has no outbound queue.
pub fn session_step(event: PeerEvent) -> (step: PeerStep)
    requires
        !is_queue_event(event),
    ensures
        step.action == session_reaction(event),
        step.peer_seen == event is Inbound,
{
    match event {
        PeerEvent::Inbound(m) => {
            let action = match m {
                Message::Disconnect { .. } => PeerAction::Close(None),
                _ => PeerAction::Continue,
            };
            PeerStep { action, peer_seen: true }
        },
        other => proxy_step(other),
    }
}

/// Keep-alive and disconnect frames from a peer are handled by the
/// session itself and never handed to the coordinator; every other peer
/// message is handed over unchanged.
pub proof fn lemma_proxy_forwards_only_application_traffic(m: Message)
    ensures
        proxy_reaction(PeerEvent::Inbound(m)) is Forward <==> !(m is KeepAlive || m is Disconnect),
        proxy_reaction(PeerEvent::Inbound(m)) is Forward ==> proxy_reaction(PeerEvent::Inbound(m))
            == PeerAction::Forward(m),
{
}

/// Every way a session ends other than a framing error is a clean close,
/// and the peer is told why whenever the session itself chose to end.
pub proof fn lemma_proxy_exits_say_why(e: PeerEvent)
    ensures
        (e is ShutdownRequested || e is OutboundClosed || (e matches PeerEvent::KeepAliveTick {
            timed_out,
        } && timed_out)) ==> (proxy_reaction(e) matches PeerAction::Close(r) && r is Some),
        proxy_reaction(e) is Fail ==> e is InboundFailed,
{
}

/// What the server introduces itself with once a peer is connected: a
/// `Hello` with the current protocol version, its display name and
/// capabilities, and a `DeviceInfo` describing the local screen.
pub fn server_greeting(display_name: &str, capabilities: &Vec<Capability>, info: ScreenInfo) -> (g: (
    HelloPayload,
    DeviceInfoPayload,
))
    ensures
        g.0@ == (HelloPayloadView {
            protocol_version: PROTOCOL_VERSION,
            display_name: display_name@,
            capabilities: capabilities@,
        }),
        g.1 == (DeviceInfoPayload {
            width: info.width,
            height: info.height,
            cursor_x: info.cursor_x,
            cursor_y: info.cursor_y,
            scale_factor_pct: info.scale_factor_pct,
        }),
{
    let caps = capabilities.clone();
    assert(caps@ =~= capabilities@);
    let hello = HelloPayload {
        protocol_version: PROTOCOL_VERSION,
        display_name: display_name.to_owned(),
        capabilities: caps,
    };
    let device = DeviceInfoPayload {
        width: info.width,
        height: info.height,
        cursor_x: info.cursor_x,
        cursor_y: info.cursor_y,
        scale_factor_pct: info.scale_factor_pct,
    };
    (hello, device)
}

} // verus!
