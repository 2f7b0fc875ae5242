//! Wire protocol v1: message vocabulary and length-delimited framing.
//!
//! Each frame is a 4-byte big-endian length prefix followed by the
//! serialized body. Frames larger than [`MAX_FRAME_BYTES`] are rejected
//! up front, before any allocation, so a malicious peer cannot force the
//! receiver to reserve arbitrary memory.

use vstd::prelude::*;

use crate::common::{
    copy_bytes, ButtonId, ClipboardFormat, ClipboardId, FileManifest, FileManifestView, KeyId,
    ModifierMask, TransferCancelReason, TransferId,
};
use crate::text::copy_string;

verus! {

/// Current wire protocol version.
pub const PROTOCOL_VERSION: u16 = 1;

/// Maximum size of a single frame body in bytes (16 MiB).
pub const MAX_FRAME_BYTES: usize = 16777216;

/// Size of the length prefix prepended to each frame.
pub const HEADER_LEN: usize = 4;

/// Optional features a peer may support.
#[derive(Debug, Clone, Copy, PartialEq, Eq, Structural)]
pub enum Capability {
    /// File transfers via the clipboard.
    FileClipboard,
    /// Full Unicode clipboard payloads.
    UnicodeClipboard,
    /// HTML clipboard payloads.
    ClipboardHtml,
    /// Catch-all for unrecognized capability strings.
    Unknown,
}

/// Machine-readable reason for a [`Message::Disconnect`].
#[derive(Debug, Clone, Copy, PartialEq, Eq, Structural)]
pub enum DisconnectReason {
    /// Peer announced a protocol version we cannot speak.
    ProtocolVersionMismatch,
    /// Peer stopped sending keep-alives.
    KeepAliveTimeout,
    /// Peer's TLS fingerprint is not in our trust store.
    UnknownPeer,
    /// Peer sent a frame that failed to decode.
    MalformedMessage,
    /// Peer sent a frame larger than our configured limit.
    FrameTooLarge,
    /// Local operator requested shutdown.
    UserInitiated,
    /// Unrecoverable error on the sending side.
    InternalError,
    /// Catch-all for unrecognized disconnect reasons.
    Unknown,
}

/// Payload of a [`Message::Hello`].
#[derive(Debug, PartialEq)]
pub struct HelloPayload {
    /// Sender's protocol version.
    pub protocol_version: u16,
    /// Human-readable screen name; typically the hostname.
    pub display_name: String,
    /// Optional protocol features the sender understands.
    pub capabilities: Vec<Capability>,
}

/// Payload of a [`Message::DeviceInfo`].
#[derive(Debug, Clone, Copy, PartialEq, Eq, Structural)]
pub struct DeviceInfoPayload {
    /// Screen width in pixels.
    pub width: u32,
    /// Screen height in pixels.
    pub height: u32,
    /// Current cursor X coordinate.
    pub cursor_x: i32,
    /// Current cursor Y coordinate.
    pub cursor_y: i32,
    /// DPI scale factor times 100.
    pub scale_factor_pct: u16,
}

/// Top-level wire message.
#[derive(Debug, PartialEq)]
#[allow(inconsistent_fields)]
pub enum Message {
    /// Initial greeting exchanged once in each direction.
    Hello(HelloPayload),
    /// Requests the peer's device info.
    DeviceInfoRequest,
    /// Describes the sender's screen geometry and cursor state.
    DeviceInfo(DeviceInfoPayload),
    /// A key was pressed down.
    KeyDown { key: KeyId, mods: ModifierMask },
    /// A key was released.
    KeyUp { key: KeyId, mods: ModifierMask },
    /// A held key auto-repeated `count` times.
    KeyRepeat { key: KeyId, mods: ModifierMask, count: u16 },
    /// Absolute cursor position on the current screen.
    MouseMove { x: i32, y: i32 },
    /// Relative cursor motion.
    MouseRelMove { dx: i32, dy: i32 },
    /// A mouse button changed state.
    MouseButton { button: ButtonId, down: bool },
    /// Mouse wheel scrolled (120 = one logical tick).
    MouseWheel { dx: i32, dy: i32 },
    /// The server is transferring control to this client.
    ScreenEnter { x: i32, y: i32, seq: u32, mask: ModifierMask },
    /// The server has taken control back from this client.
    ScreenLeave,
    /// Announces the sender now owns the given clipboard.
    ClipboardGrab { id: ClipboardId, seq: u32 },
    /// Clipboard contents requested by the peer.
    ClipboardRequest { id: ClipboardId, seq: u32 },
    /// Clipboard payload in a specific format.
    ClipboardData { id: ClipboardId, format: ClipboardFormat, data: Vec<u8> },
    /// Announces a new file-clipboard transfer.
    FileTransferStart { transfer_id: TransferId, clipboard_seq: u32, manifest: FileManifest },
    /// One chunk of one file within an active transfer.
    FileChunk { transfer_id: TransferId, entry_index: u32, offset: u64, data: Vec<u8> },
    /// All chunks for a transfer have been sent.
    FileTransferEnd { transfer_id: TransferId },
    /// Abort a transfer.
    FileTransferCancel { transfer_id: TransferId, reason: TransferCancelReason },
    /// Periodic liveness probe.
    KeepAlive,
    /// Orderly connection shutdown.
    Disconnect { reason: DisconnectReason },
}

/// Mathematical value of a [`HelloPayload`].
pub struct HelloPayloadView {
    pub protocol_version: u16,
    pub display_name: Seq<char>,
    pub capabilities: Seq<Capability>,
}

/// Mathematical value of a [`Message`].
#[allow(inconsistent_fields)]
pub enum MessageView {
    Hello(HelloPayloadView),
    DeviceInfoRequest,
    DeviceInfo(DeviceInfoPayload),
    KeyDown { key: KeyId, mods: ModifierMask },
    KeyUp { key: KeyId, mods: ModifierMask },
    KeyRepeat { key: KeyId, mods: ModifierMask, count: u16 },
    MouseMove { x: i32, y: i32 },
    MouseRelMove { dx: i32, dy: i32 },
    MouseButton { button: ButtonId, down: bool },
    MouseWheel { dx: i32, dy: i32 },
    ScreenEnter { x: i32, y: i32, seq: u32, mask: ModifierMask },
    ScreenLeave,
    ClipboardGrab { id: ClipboardId, seq: u32 },
    ClipboardRequest { id: ClipboardId, seq: u32 },
    ClipboardData { id: ClipboardId, format: ClipboardFormat, data: Seq<u8> },
    FileTransferStart { transfer_id: TransferId, clipboard_seq: u32, manifest: FileManifestView },
    FileChunk { transfer_id: TransferId, entry_index: u32, offset: u64, data: Seq<u8> },
    FileTransferEnd { transfer_id: TransferId },
    FileTransferCancel { transfer_id: TransferId, reason: TransferCancelReason },
    KeepAlive,
    Disconnect { reason: DisconnectReason },
}

impl View for HelloPayload {
    type V = HelloPayloadView;

    open spec fn view(&self) -> HelloPayloadView {
        HelloPayloadView {
            protocol_version: self.protocol_version,
            display_name: self.display_name@,
            capabilities: self.capabilities@,
        }
    }
}

impl View for Message {
    type V = MessageView;

    open spec fn view(&self) -> MessageView {
        match self {
            Message::Hello(h) => MessageView::Hello(h@),
            Message::DeviceInfoRequest => MessageView::DeviceInfoRequest,
            Message::DeviceInfo(d) => MessageView::DeviceInfo(*d),
            Message::KeyDown { key, mods } => MessageView::KeyDown { key: *key, mods: *mods },
            Message::KeyUp { key, mods } => MessageView::KeyUp { key: *key, mods: *mods },
            Message::KeyRepeat { key, mods, count } => MessageView::KeyRepeat {
                key: *key,
                mods: *mods,
                count: *count,
            },
            Message::MouseMove { x, y } => MessageView::MouseMove { x: *x, y: *y },
            Message::MouseRelMove { dx, dy } => MessageView::MouseRelMove { dx: *dx, dy: *dy },
            Message::MouseButton { button, down } => MessageView::MouseButton {
                button: *button,
                down: *down,
            },
            Message::MouseWheel { dx, dy } => MessageView::MouseWheel { dx: *dx, dy: *dy },
            Message::ScreenEnter { x, y, seq, mask } => MessageView::ScreenEnter {
                x: *x,
                y: *y,
                seq: *seq,
                mask: *mask,
            },
            Message::ScreenLeave => MessageView::ScreenLeave,
            Message::ClipboardGrab { id, seq } => MessageView::ClipboardGrab { id: *id, seq: *seq },
            Message::ClipboardRequest { id, seq } => MessageView::ClipboardRequest {
                id: *id,
                seq: *seq,
            },
            Message::ClipboardData { id, format, data } => MessageView::ClipboardData {
                id: *id,
                format: *format,
                data: data@,
            },
            Message::FileTransferStart { transfer_id, clipboard_seq, manifest } =>
                MessageView::FileTransferStart {
                transfer_id: *transfer_id,
                clipboard_seq: *clipboard_seq,
                manifest: manifest@,
            },
            Message::FileChunk { transfer_id, entry_index, offset, data } =>
                MessageView::FileChunk {
                transfer_id: *transfer_id,
                entry_index: *entry_index,
                offset: *offset,
                data: data@,
            },
            Message::FileTransferEnd { transfer_id } => MessageView::FileTransferEnd {
                transfer_id: *transfer_id,
            },
            Message::FileTransferCancel { transfer_id, reason } =>
                MessageView::FileTransferCancel { transfer_id: *transfer_id, reason: *reason },
            Message::KeepAlive => MessageView::KeepAlive,
            Message::Disconnect { reason } => MessageView::Disconnect { reason: *reason },
        }
    }
}

impl HelloPayload {
    /// Copy with the same value.
    pub fn duplicate(&self) -> (r: HelloPayload)
        ensures
            r@ == self@,
    {
        let caps = self.capabilities.clone();
        assert(caps@ =~= self.capabilities@);
        HelloPayload {
            protocol_version: self.protocol_version,
            display_name: copy_string(&self.display_name),
            capabilities: caps,
        }
    }
}

impl Message {
    /// Copy with the same value.
    pub fn duplicate(&self) -> (r: Message)
        ensures
            r@ == self@,
    {
        match self {
            Message::Hello(h) => Message::Hello(h.duplicate()),
            Message::DeviceInfoRequest => Message::DeviceInfoRequest,
            Message::DeviceInfo(d) => Message::DeviceInfo(*d),
            Message::KeyDown { key, mods } => Message::KeyDown { key: *key, mods: *mods },
            Message::KeyUp { key, mods } => Message::KeyUp { key: *key, mods: *mods },
            Message::KeyRepeat { key, mods, count } => Message::KeyRepeat {
                key: *key,
                mods: *mods,
                count: *count,
            },
            Message::MouseMove { x, y } => Message::MouseMove { x: *x, y: *y },
            Message::MouseRelMove { dx, dy } => Message::MouseRelMove { dx: *dx, dy: *dy },
            Message::MouseButton { button, down } => Message::MouseButton {
                button: *button,
                down: *down,
            },
            Message::MouseWheel { dx, dy } => Message::MouseWheel { dx: *dx, dy: *dy },
            Message::ScreenEnter { x, y, seq, mask } => Message::ScreenEnter {
                x: *x,
                y: *y,
                seq: *seq,
                mask: *mask,
            },
            Message::ScreenLeave => Message::ScreenLeave,
            Message::ClipboardGrab { id, seq } => Message::ClipboardGrab { id: *id, seq: *seq },
            Message::ClipboardRequest { id, seq } => Message::ClipboardRequest { id: *id, seq: *seq },
            Message::ClipboardData { id, format, data } => Message::ClipboardData {
                id: *id,
                format: *format,
                data: copy_bytes(data),
            },
            Message::FileTransferStart { transfer_id, clipboard_seq, manifest } =>
                Message::FileTransferStart {
                transfer_id: *transfer_id,
                clipboard_seq: *clipboard_seq,
                manifest: manifest.duplicate(),
            },
            Message::FileChunk { transfer_id, entry_index, offset, data } => Message::FileChunk {
                transfer_id: *transfer_id,
                entry_index: *entry_index,
                offset: *offset,
                data: copy_bytes(data),
            },
            Message::FileTransferEnd { transfer_id } => Message::FileTransferEnd {
                transfer_id: *transfer_id,
            },
            Message::FileTransferCancel { transfer_id, reason } => Message::FileTransferCancel {
                transfer_id: *transfer_id,
                reason: *reason,
            },
            Message::KeepAlive => Message::KeepAlive,
            Message::Disconnect { reason } => Message::Disconnect { reason: *reason },
        }
    }
}

/// Views of a message list.
pub open spec fn msg_views(s: Seq<Message>) -> Seq<MessageView> {
    s.map_values(|m: Message| m@)
}

/// Pushing a message pushes its view.
pub proof fn lemma_msg_views_push(s: Seq<Message>, m: Message)
    ensures
        msg_views(s.push(m)) == msg_views(s).push(m@),
{
    assert(msg_views(s.push(m)) =~= msg_views(s).push(m@));
}

/// Views of a concatenation.
pub proof fn lemma_msg_views_add(a: Seq<Message>, b: Seq<Message>)
    ensures
        msg_views(a + b) == msg_views(a) + msg_views(b),
{
    assert(msg_views(a + b) =~= msg_views(a) + msg_views(b));
}

/// Errors produced while encoding or decoding a frame.
#[derive(Debug)]
pub enum ProtocolError {
    /// Underlying I/O error from the transport.
    Io(String),
    /// Deserialization failed (malformed or unsupported payload).
    Decode(String),
    /// Serialization failed.
    Encode(String),
    /// A frame exceeded [`MAX_FRAME_BYTES`].
    FrameTooLarge {
        /// Size of the rejected frame.
        size: usize,
    },
}

/// Big-endian value of the first four bytes of `s`.
pub open spec fn be_u32(s: Seq<u8>) -> int {
    (s[0] as int) * 16777216 + (s[1] as int) * 65536 + (s[2] as int) * 256 + (s[3] as int)
}

/// Big-endian encoding of `n` in four bytes.
pub open spec fn be_bytes(n: u32) -> Seq<u8> {
    seq![
        (n / 16777216) as u8,
        ((n / 65536) % 256) as u8,
        ((n / 256) % 256) as u8,
        (n % 256) as u8,
    ]
}

/// A whole frame for `body`: its length in four big-endian bytes, then
/// the body.
pub open spec fn frame_of(body: Seq<u8>) -> Seq<u8> {
    be_bytes(body.len() as u32) + body
}

/// What one decode step does to a receive buffer.
pub enum FrameStep {
    /// Not enough bytes yet; the buffer is kept as it is.
    NeedMore,
    /// The header announces a frame over the limit; the buffer is dropped.
    TooLarge { size: int },
    /// One complete frame: its body, and what stays in the buffer.
    Frame { body: Seq<u8>, rest: Seq<u8> },
}

/// The outcome of decoding one frame from the front of `buf`.
pub open spec fn decode_step(buf: Seq<u8>) -> FrameStep {
    if buf.len() < 4 {
        FrameStep::NeedMore
    } else if be_u32(buf) > MAX_FRAME_BYTES {
        FrameStep::TooLarge { size: be_u32(buf) }
    } else if buf.len() < 4 + be_u32(buf) {
        FrameStep::NeedMore
    } else {
        FrameStep::Frame {
            body: buf.subrange(4, 4 + be_u32(buf)),
            rest: buf.subrange(4 + be_u32(buf), buf.len() as int),
        }
    }
}

/// Frames bodies with a 4-byte big-endian length prefix.
#[derive(Debug, Default)]
pub struct MessageCodec {}

impl MessageCodec {
    /// Constructs a new codec.
    pub fn new() -> (c: MessageCodec) {
        MessageCodec {}
    }

    /// Take one frame off the front of `src`.
    ///
    /// `Ok(None)` while the header or the body is incomplete (`src` is
    /// left as it was); `Err(FrameTooLarge)` when the header announces
    /// more than [`MAX_FRAME_BYTES`] (`src` is emptied so the stream can
    /// resynchronize); otherwise the body, with the frame removed from
    /// `src`.
    pub fn decode(&mut self, src: &mut Vec<u8>) -> (r: Result<Option<Vec<u8>>, ProtocolError>)
        ensures
            match decode_step(old(src)@) {
                FrameStep::NeedMore => (r matches Ok(None) && final(src)@ == old(src)@),
                FrameStep::TooLarge { size } => (r matches Err(ProtocolError::FrameTooLarge { size: s })
                    && s == size && final(src)@.len() == 0),
                FrameStep::Frame { body, rest } => (r matches Ok(Some(b)) && b@ == body
                    && final(src)@ == rest),
            },
    {
        if src.len() < HEADER_LEN {
            return Ok(None);
        }
        let size: usize = (src[0] as usize) * 16777216 + (src[1] as usize) * 65536 + (src[2] as usize)
            * 256 + (src[3] as usize);
        assert(size == be_u32(src@));
        if size > MAX_FRAME_BYTES {
            src.clear();
            return Err(ProtocolError::FrameTooLarge { size });
        }
        if src.len() - HEADER_LEN < size {
            return Ok(None);
        }
        let end = HEADER_LEN + size;
        let ghost before = src@;
        let mut rest = src.split_off(end);
        let mut body = src.split_off(HEADER_LEN);
        assert(body@ =~= before.subrange(4, 4 + be_u32(before)));
        std::mem::swap(src, &mut rest);
        assert(src@ =~= before.subrange(4 + be_u32(before), before.len() as int));
        Ok(Some(body))
    }

    /// Look at the front of `buf` without consuming it: `Ok(None)` while
    /// the header or the body is incomplete, `Err(FrameTooLarge)` when the
    /// header announces more than [`MAX_FRAME_BYTES`] (the caller drops
    /// the buffer), otherwise the body length of the complete frame that
    /// starts the buffer (the frame takes [`HEADER_LEN`] more bytes).
    pub fn frame_len(&self, buf: &[u8]) -> (r: Result<Option<usize>, ProtocolError>)
        ensures
            match decode_step(buf@) {
                FrameStep::NeedMore => r matches Ok(None),
                FrameStep::TooLarge { size } => r matches Err(ProtocolError::FrameTooLarge { size: s })
                    && s == size,
                FrameStep::Frame { body, .. } => r matches Ok(Some(n)) && n == body.len(),
            },
    {
        if buf.len() < HEADER_LEN {
            return Ok(None);
        }
        let size: usize = (buf[0] as usize) * 16777216 + (buf[1] as usize) * 65536 + (buf[2] as usize)
            * 256 + (buf[3] as usize);
        assert(size == be_u32(buf@));
        if size > MAX_FRAME_BYTES {
            return Err(ProtocolError::FrameTooLarge { size });
        }
        if buf.len() - HEADER_LEN < size {
            return Ok(None);
        }
        Ok(Some(size))
    }

    /// Append one frame carrying `body` to `dst`.
    ///
    /// Bodies over [`MAX_FRAME_BYTES`] are rejected before `dst` is
    /// touched.
    pub fn encode(&mut self, body: &[u8], dst: &mut Vec<u8>) -> (r: Result<(), ProtocolError>)
        ensures
            body@.len() > MAX_FRAME_BYTES ==> (r matches Err(ProtocolError::FrameTooLarge { size })
                && size == body@.len() && final(dst)@ == old(dst)@),
            body@.len() <= MAX_FRAME_BYTES ==> r is Ok && final(dst)@ == old(dst)@ + frame_of(
                body@,
            ),
    {
        let n = body.len();
        if n > MAX_FRAME_BYTES {
            return Err(ProtocolError::FrameTooLarge { size: n });
        }
        let size = n as u32;
        dst.push((size / 16777216) as u8);
        dst.push(((size / 65536) % 256) as u8);
        dst.push(((size / 256) % 256) as u8);
        dst.push((size % 256) as u8);
        let ghost mid = dst@;
        let mut i: usize = 0;
        while i < n
            invariant
                n == body@.len(),
                i <= n,
                dst@ == mid + body@.subrange(0, i as int),
            decreases n - i,
        {
            dst.push(body[i]);
            assert(body@.subrange(0, i + 1) =~= body@.subrange(0, i as int).push(body@[i as int]));
            i = i + 1;
        }
        assert(body@.subrange(0, n as int) =~= body@);
        assert(mid =~= old(dst)@ + be_bytes(size));
        assert(dst@ =~= old(dst)@ + frame_of(body@));
        Ok(())
    }
}

/// Four big-endian bytes read back give the number they encode.
pub proof fn lemma_be_round_trip(n: u32)
    ensures
        be_u32(be_bytes(n)) == n,
        be_bytes(n).len() == 4,
{
    let b = be_bytes(n);
    assert(b[0] == (n / 16777216) as u8);
    assert(b[1] == ((n / 65536) % 256) as u8);
    assert(b[2] == ((n / 256) % 256) as u8);
    assert(b[3] == (n % 256) as u8);
    assert(n / 16777216 < 256);
    assert((n / 16777216) * 16777216 + ((n / 65536) % 256) * 65536 + ((n / 256) % 256) * 256 + n
        % 256 == n) by (nonlinear_arith);
}

/// Decoding a buffer that starts with a whole frame yields that frame's
/// body and leaves exactly what followed it.
pub proof fn lemma_decode_encoded_frame(body: Seq<u8>, rest: Seq<u8>)
    requires
        body.len() <= MAX_FRAME_BYTES,
    ensures
        decode_step(frame_of(body) + rest) == (FrameStep::Frame { body, rest }),
{
    lemma_be_round_trip(body.len() as u32);
    let buf = frame_of(body) + rest;
    assert(buf.subrange(0, 4) =~= be_bytes(body.len() as u32));
    assert(be_u32(buf) == be_u32(be_bytes(body.len() as u32)));
    assert(buf.subrange(4, 4 + body.len() as int) =~= body);
    assert(buf.subrange(4 + body.len() as int, buf.len() as int) =~= rest);
}

/// The frames of `bodies`, one after another.
pub open spec fn frames_of(bodies: Seq<Seq<u8>>) -> Seq<u8>
    decreases bodies.len(),
{
    if bodies.len() == 0 {
        Seq::empty()
    } else {
        frame_of(bodies[0]) + frames_of(bodies.drop_first())
    }
}

/// Up to `n` decode steps on `buf`: the bodies taken off its front, in
/// order, and what is left (the steps stop early at the first one that
/// yields no frame).
pub open spec fn decode_n(buf: Seq<u8>, n: nat) -> (Seq<Seq<u8>>, Seq<u8>)
    decreases n,
{
    if n == 0 {
        (Seq::empty(), buf)
    } else {
        match decode_step(buf) {
            FrameStep::Frame { body, rest } => {
                let (more, left) = decode_n(rest, (n - 1) as nat);
                (seq![body] + more, left)
            },
            _ => (Seq::empty(), buf),
        }
    }
}

/// Frames written back to back come out of the decoder one by one, in
/// the order they were written, each with its own body, and leave what
/// followed them untouched.
pub proof fn lemma_decode_pipelined(bodies: Seq<Seq<u8>>, rest: Seq<u8>)
    requires
        forall|i: int| 0 <= i < bodies.len() ==> (#[trigger] bodies[i]).len() <= MAX_FRAME_BYTES,
    ensures
        decode_n(frames_of(bodies) + rest, bodies.len()) == (bodies, rest),
    decreases bodies.len(),
{
    if bodies.len() == 0 {
        assert(frames_of(bodies) + rest =~= rest);
    } else {
        let tail = bodies.drop_first();
        assert forall|i: int| 0 <= i < tail.len() implies (#[trigger] tail[i]).len() <= MAX_FRAME_BYTES by {
            assert(tail[i] == bodies[i + 1]);
        }
        lemma_decode_pipelined(tail, rest);
        assert(bodies[0].len() <= MAX_FRAME_BYTES);
        lemma_decode_encoded_frame(bodies[0], frames_of(tail) + rest);
        assert(frames_of(bodies) + rest =~= frame_of(bodies[0]) + (frames_of(tail) + rest));
        assert(seq![bodies[0]] + tail =~= bodies);
    }
}

/// A strict prefix of a frame never decodes: the decoder waits for more.
pub proof fn lemma_partial_frame_waits(body: Seq<u8>, k: int)
    requires
        body.len() <= MAX_FRAME_BYTES,
        0 <= k < frame_of(body).len(),
    ensures
        decode_step(frame_of(body).subrange(0, k)) == FrameStep::NeedMore,
{
    lemma_be_round_trip(body.len() as u32);
    let p = frame_of(body).subrange(0, k);
    if k >= 4 {
        assert(be_u32(p) == be_u32(be_bytes(body.len() as u32)));
    }
}

} // verus!
