//! An in-memory screen backend for tests and headless runs.
//!
//! It records every injection in order, replays a script of input
//! events once, and keeps every clipboard write; a read returns the most
//! recent write for that clipboard and format, or empty data when there
//! was none.

use vstd::prelude::*;

use crate::common::{copy_bytes, ButtonId, ClipboardFormat, ClipboardId, KeyId, ModifierMask};
use crate::platform::{InjectedEvent, InputEvent, ScreenInfo};

verus! {

/// One clipboard write.
#[derive(Debug)]
pub struct ClipboardWrite {
    /// Which clipboard.
    pub id: ClipboardId,
    /// In which format.
    pub format: ClipboardFormat,
    /// The payload.
    pub data: Vec<u8>,
}

/// Mathematical value of a [`ClipboardWrite`].
pub struct ClipboardWriteView {
    pub id: ClipboardId,
    pub format: ClipboardFormat,
    pub data: Seq<u8>,
}

impl View for ClipboardWrite {
    type V = ClipboardWriteView;

    open spec fn view(&self) -> ClipboardWriteView {
        ClipboardWriteView { id: self.id, format: self.format, data: self.data@ }
    }
}

/// Views of a write list.
pub open spec fn write_views(s: Seq<ClipboardWrite>) -> Seq<ClipboardWriteView> {
    s.map_values(|w: ClipboardWrite| w@)
}

/// The payload of the most recent write to `id` in `format`, or empty
/// data when there was none.
pub open spec fn latest_write(s: Seq<ClipboardWriteView>, id: ClipboardId, format: ClipboardFormat) -> Seq<u8>
    decreases s.len(),
{
    if s.len() == 0 {
        Seq::empty()
    } else if s.last().id == id && s.last().format == format {
        s.last().data
    } else {
        latest_write(s.drop_last(), id, format)
    }
}

/// Mathematical value of a [`MockScreen`].
pub struct MockView {
    pub info: ScreenInfo,
    pub injected: Seq<InjectedEvent>,
    pub scripted: Seq<InputEvent>,
    pub clipboard: Seq<ClipboardWriteView>,
}

/// A screen that records instead of touching the operating system.
#[derive(Debug)]
pub struct MockScreen {
    info: ScreenInfo,
    injected: Vec<InjectedEvent>,
    scripted: Vec<InputEvent>,
    clipboard: Vec<ClipboardWrite>,
}

impl View for MockScreen {
    type V = MockView;

    closed spec fn view(&self) -> MockView {
        MockView {
            info: self.info,
            injected: self.injected@,
            scripted: self.scripted@,
            clipboard: write_views(self.clipboard@),
        }
    }
}

impl MockScreen {
    /// A screen with the given geometry and nothing recorded.
    pub fn new(info: ScreenInfo) -> (s: MockScreen)
        ensures
            s@.info == info,
            s@.injected.len() == 0,
            s@.scripted.len() == 0,
            s@.clipboard.len() == 0,
    {
        let s = MockScreen { info, injected: Vec::new(), scripted: Vec::new(), clipboard: Vec::new() };
        assert(s@.clipboard =~= Seq::<ClipboardWriteView>::empty());
        s
    }

    /// A 1920x1080 screen at scale 1.0, cursor at the origin.
    pub fn default_stub() -> (s: MockScreen)
        ensures
            s@.info == (ScreenInfo {
                width: 1920,
                height: 1080,
                cursor_x: 0,
                cursor_y: 0,
                scale_factor_pct: 100,
            }),
            s@.injected.len() == 0,
            s@.scripted.len() == 0,
            s@.clipboard.len() == 0,
    {
        MockScreen::new(ScreenInfo::stub(1920, 1080))
    }

    /// Queue events for the next [`MockScreen::take_scripted`].
    pub fn script_events(&mut self, events: Vec<InputEvent>)
        ensures
            final(self)@ == (MockView { scripted: old(self)@.scripted + events@, ..old(self)@ }),
    {
        let mut events = events;
        self.scripted.append(&mut events);
    }

    /// Every injection so far, in order.
    pub fn injected(&self) -> (r: Vec<InjectedEvent>)
        ensures
            r@ == self@.injected,
    {
        let r = self.injected.clone();
        assert(r@ =~= self.injected@);
        r
    }

    /// Every clipboard write so far, in order.
    pub fn clipboard_entries(&self) -> (r: Vec<ClipboardWrite>)
        ensures
            write_views(r@) == self@.clipboard,
    {
        let mut r: Vec<ClipboardWrite> = Vec::new();
        let n = self.clipboard.len();
        let mut i: usize = 0;
        while i < n
            invariant
                n == self.clipboard@.len(),
                i <= n,
                write_views(r@) == write_views(self.clipboard@).subrange(0, i as int),
            decreases n - i,
        {
            let w = &self.clipboard[i];
            let ghost before = write_views(r@);
            r.push(ClipboardWrite { id: w.id, format: w.format, data: copy_bytes(&w.data) });
            assert(write_views(r@) =~= before.push(self.clipboard@[i as int]@));
            assert(write_views(self.clipboard@).subrange(0, i + 1) =~= write_views(
                self.clipboard@,
            ).subrange(0, i as int).push(self.clipboard@[i as int]@));
            i = i + 1;
        }
        assert(write_views(self.clipboard@).subrange(0, n as int) =~= write_views(self.clipboard@));
        r
    }

    fn record(&mut self, event: InjectedEvent)
        ensures
            final(self)@ == (MockView { injected: old(self)@.injected.push(event), ..old(self)@ }),
    {
        self.injected.push(event);
    }

    /// Record a key press or release.
    pub fn inject_key(&mut self, key: KeyId, mods: ModifierMask, down: bool)
        ensures
            final(self)@ == (MockView {
                injected: old(self)@.injected.push(InjectedEvent::Key { key, mods, down }),
                ..old(self)@
            }),
    {
        self.record(InjectedEvent::Key { key, mods, down });
    }

    /// Record a mouse-button press or release.
    pub fn inject_mouse_button(&mut self, button: ButtonId, down: bool)
        ensures
            final(self)@ == (MockView {
                injected: old(self)@.injected.push(InjectedEvent::MouseButton { button, down }),
                ..old(self)@
            }),
    {
        self.record(InjectedEvent::MouseButton { button, down });
    }

    /// Record an absolute pointer move.
    pub fn inject_mouse_move(&mut self, x: i32, y: i32)
        ensures
            final(self)@ == (MockView {
                injected: old(self)@.injected.push(InjectedEvent::MouseMove { x, y }),
                ..old(self)@
            }),
    {
        self.record(InjectedEvent::MouseMove { x, y });
    }

    /// Record a wheel scroll.
    pub fn inject_mouse_wheel(&mut self, dx: i32, dy: i32)
        ensures
            final(self)@ == (MockView {
                injected: old(self)@.injected.push(InjectedEvent::MouseWheel { dx, dy }),
                ..old(self)@
            }),
    {
        self.record(InjectedEvent::MouseWheel { dx, dy });
    }

    /// The most recent payload written to `id` in `format`; empty when
    /// there was none.
    pub fn get_clipboard(&self, id: ClipboardId, format: ClipboardFormat) -> (r: Vec<u8>)
        ensures
            r@ == latest_write(self@.clipboard, id, format),
    {
        let ghost s = write_views(self.clipboard@);
        let mut i = self.clipboard.len();
        assert(s.subrange(0, i as int) =~= s);
        while i > 0
            invariant
                i <= self.clipboard@.len(),
                s == write_views(self.clipboard@),
                latest_write(s, id, format) == latest_write(s.subrange(0, i as int), id, format),
            decreases i,
        {
            let w = &self.clipboard[i - 1];
            let ghost pre = s.subrange(0, i as int);
            assert(pre.last() == self.clipboard@[i - 1]@);
            if w.id == id && w.format == format {
                return copy_bytes(&w.data);
            }
            assert(pre.drop_last() =~= s.subrange(0, i - 1));
            i = i - 1;
        }
        Vec::new()
    }

    /// Record a clipboard write.
    pub fn set_clipboard(&mut self, id: ClipboardId, format: ClipboardFormat, data: Vec<u8>)
        ensures
            final(self)@ == (MockView {
                clipboard: old(self)@.clipboard.push(ClipboardWriteView { id, format, data: data@ }),
                ..old(self)@
            }),
    {
        self.clipboard.push(ClipboardWrite { id, format, data });
        assert(write_views(self.clipboard@) =~= write_views(old(self).clipboard@).push(
            ClipboardWriteView { id, format, data: data@ },
        ));
    }

    /// The screen geometry.
    pub fn screen_info(&self) -> (r: ScreenInfo)
        ensures
            r == self@.info,
    {
        self.info
    }

    /// Hand out the scripted events, once: the script is empty afterwards.
    pub fn take_scripted(&mut self) -> (r: Vec<InputEvent>)
        ensures
            r@ == old(self)@.scripted,
            final(self)@ == (MockView { scripted: Seq::empty(), ..old(self)@ }),
    {
        let mut taken: Vec<InputEvent> = Vec::new();
        std::mem::swap(&mut taken, &mut self.scripted);
        assert(self@.scripted =~= Seq::<InputEvent>::empty());
        taken
    }
}

/// A clipboard read returns the last write to the same clipboard and
/// format; writes to another clipboard or format leave it unchanged.
pub proof fn lemma_clipboard_read_after_write(
    s: Seq<ClipboardWriteView>,
    w: ClipboardWriteView,
    id: ClipboardId,
    format: ClipboardFormat,
)
    ensures
        latest_write(s.push(w), w.id, w.format) == w.data,
        (id, format) != (w.id, w.format) ==> latest_write(s.push(w), id, format) == latest_write(
            s,
            id,
            format,
        ),
{
    assert(s.push(w).drop_last() =~= s);
}

} // verus!
