//! Platform-neutral screen types: input events, screen geometry, backend
//! errors, and the backends whose behaviour is decided without touching
//! the operating system.

use vstd::prelude::*;

use crate::common::{ButtonId, ClipboardFormat, ClipboardId, KeyId, ModifierMask};

verus! {

/// An input event observed on the local machine.
#[derive(Debug, Clone, Copy, PartialEq, Eq, Structural)]
pub enum InputEvent {
    /// Key pressed.
    KeyDown { key: KeyId, mods: ModifierMask },
    /// Key released.
    KeyUp { key: KeyId, mods: ModifierMask },
    /// Mouse button changed state.
    MouseButton { button: ButtonId, down: bool },
    /// Absolute cursor move.
    MouseMove { x: i32, y: i32 },
    /// Mouse wheel scrolled.
    MouseWheel { dx: i32, dy: i32 },
}

/// Record of an injection call, kept by test fixtures.
#[derive(Debug, Clone, Copy, PartialEq, Eq, Structural)]
pub enum InjectedEvent {
    /// Key press or release.
    Key { key: KeyId, mods: ModifierMask, down: bool },
    /// Mouse-button press or release.
    MouseButton { button: ButtonId, down: bool },
    /// Absolute mouse move.
    MouseMove { x: i32, y: i32 },
    /// Mouse-wheel scroll.
    MouseWheel { dx: i32, dy: i32 },
}

/// Geometry and metadata describing the screen exposed by a backend.
#[derive(Debug, Clone, Copy, PartialEq, Eq, Structural)]
pub struct ScreenInfo {
    /// Width in pixels.
    pub width: u32,
    /// Height in pixels.
    pub height: u32,
    /// Cursor X when this snapshot was taken.
    pub cursor_x: i32,
    /// Cursor Y when this snapshot was taken.
    pub cursor_y: i32,
    /// DPI scale factor times 100 (100 = 1.0x).
    pub scale_factor_pct: u16,
}

impl ScreenInfo {
    /// A "default desktop" geometry: cursor at the origin, scale 1.0x.
    pub fn stub(width: u32, height: u32) -> (r: ScreenInfo)
        ensures
            r == (ScreenInfo { width, height, cursor_x: 0, cursor_y: 0, scale_factor_pct: 100 }),
    {
        ScreenInfo { width, height, cursor_x: 0, cursor_y: 0, scale_factor_pct: 100 }
    }
}

/// Errors a backend may return.
#[derive(Debug)]
pub enum PlatformError {
    /// The backend is unavailable on this host.
    Unavailable(String),
    /// An OS-level permission is missing for the named operation.
    PermissionDenied { operation: String },
    /// Lost the connection to the display / system server.
    ConnectionLost { message: String },
    /// The backend does not support the requested clipboard format.
    UnsupportedFormat { format: ClipboardFormat },
    /// Clipboard read/write timed out.
    ClipboardTimeout,
    /// Failure that fits no other variant.
    Other(String),
}

impl PlatformError {
    /// A [`PlatformError::ConnectionLost`] describing `message`.
    pub fn connection_lost(message: &str) -> (e: PlatformError)
        ensures
            e matches PlatformError::ConnectionLost { message: m } && m@ == message@,
    {
        PlatformError::ConnectionLost { message: message.to_owned() }
    }
}

/// Is `needle` a contiguous part of `hay`?
pub open spec fn mentions(hay: Seq<char>, needle: Seq<char>) -> bool {
    exists|i: int| 0 <= i <= hay.len() - needle.len() && #[trigger] hay.subrange(i, i + needle.len())
        == needle
}

/// A part of `hay` found at index `i` is mentioned by it.
pub proof fn lemma_mentions_at(hay: Seq<char>, needle: Seq<char>, i: int)
    requires
        0 <= i,
        i + needle.len() <= hay.len(),
        hay.subrange(i, i + needle.len()) =~= needle,
    ensures
        mentions(hay, needle),
{
    assert(hay.subrange(i, i + needle.len()) == needle);
}

/// macOS platform backend (scaffold).
#[derive(Debug)]
pub struct MacOsScreen {
    info: ScreenInfo,
}

impl MacOsScreen {
    /// Attempt to open the local macOS session: always `Unavailable`, the
    /// backend being a scaffold.
    pub fn try_open() -> (r: Result<MacOsScreen, PlatformError>)
        ensures
            r matches Err(PlatformError::Unavailable(msg)) && msg@ == "macOS CGEvent backend is a scaffold; real implementation requires Accessibility permission and CGEvent APIs (post-M10 follow-up)"@
                && mentions(msg@, "scaffold"@),
    {
        let msg = "macOS CGEvent backend is a scaffold; real implementation requires Accessibility permission and CGEvent APIs (post-M10 follow-up)";
        proof {
            reveal_strlit("macOS CGEvent backend is a scaffold; real implementation requires Accessibility permission and CGEvent APIs (post-M10 follow-up)");
            reveal_strlit("scaffold");
            lemma_mentions_at(msg@, "scaffold"@, 27);
        }
        Err(PlatformError::Unavailable(msg.to_owned()))
    }

    /// Construct with explicit geometry.
    pub fn with_info(info: ScreenInfo) -> (r: MacOsScreen)
        ensures
            r.screen_info_spec() == info,
    {
        MacOsScreen { info }
    }

    /// The geometry this backend reports.
    pub closed spec fn screen_info_spec(&self) -> ScreenInfo {
        self.info
    }

    /// The geometry this backend reports.
    pub fn screen_info(&self) -> (r: ScreenInfo)
        ensures
            r == self.screen_info_spec(),
    {
        self.info
    }
}

/// Windows platform backend (scaffold).
#[derive(Debug)]
pub struct WindowsScreen {
    info: ScreenInfo,
}

impl WindowsScreen {
    /// Attempt to open the local Windows session: always `Unavailable`,
    /// the backend being a scaffold.
    pub fn try_open() -> (r: Result<WindowsScreen, PlatformError>)
        ensures
            r matches Err(PlatformError::Unavailable(msg)) && msg@ == "Windows backend is a scaffold; real implementation uses Win32 SendInput / clipboard APIs and is a post-M10 follow-up once a Windows CI loop is available"@
                && mentions(msg@, "scaffold"@),
    {
        let msg = "Windows backend is a scaffold; real implementation uses Win32 SendInput / clipboard APIs and is a post-M10 follow-up once a Windows CI loop is available";
        proof {
            reveal_strlit("Windows backend is a scaffold; real implementation uses Win32 SendInput / clipboard APIs and is a post-M10 follow-up once a Windows CI loop is available");
            reveal_strlit("scaffold");
            lemma_mentions_at(msg@, "scaffold"@, 21);
        }
        Err(PlatformError::Unavailable(msg.to_owned()))
    }

    /// Construct with explicit geometry.
    pub fn with_info(info: ScreenInfo) -> (r: WindowsScreen)
        ensures
            r.screen_info_spec() == info,
    {
        WindowsScreen { info }
    }

    /// The geometry this backend reports.
    pub closed spec fn screen_info_spec(&self) -> ScreenInfo {
        self.info
    }

    /// The geometry this backend reports.
    pub fn screen_info(&self) -> (r: ScreenInfo)
        ensures
            r == self.screen_info_spec(),
    {
        self.info
    }
}

/// Wayland / libei platform backend (scaffold).
#[derive(Debug)]
pub struct EiScreen {
    info: ScreenInfo,
}

impl EiScreen {
    /// Decide the outcome of opening a libei session from what the
    /// environment holds: the Wayland display must be named, then the
    /// runtime directory; with both present the scaffold still refuses.
    pub fn try_open(wayland_display_set: bool, xdg_runtime_dir_set: bool) -> (r: Result<
        EiScreen,
        PlatformError,
    >)
        ensures
            r matches Err(PlatformError::Unavailable(msg)) && (!wayland_display_set ==> msg@
                == "WAYLAND_DISPLAY not set; not running under Wayland"@ && mentions(
                msg@,
                "WAYLAND_DISPLAY"@,
            )) && (wayland_display_set && !xdg_runtime_dir_set ==> msg@
                == "XDG_RUNTIME_DIR not set; cannot reach the user session bus"@ && mentions(
                msg@,
                "XDG_RUNTIME_DIR"@,
            )) && (wayland_display_set && xdg_runtime_dir_set ==> msg@
                == "libei backend is a scaffold in M6; full xdg-desktop-portal + reis integration lands post-M10"@
                && mentions(msg@, "scaffold"@)),
    {
        if !wayland_display_set {
            let msg = "WAYLAND_DISPLAY not set; not running under Wayland";
            proof {
                reveal_strlit("WAYLAND_DISPLAY not set; not running under Wayland");
                reveal_strlit("WAYLAND_DISPLAY");
                lemma_mentions_at(msg@, "WAYLAND_DISPLAY"@, 0);
            }
            return Err(PlatformError::Unavailable(msg.to_owned()));
        }
        if !xdg_runtime_dir_set {
            let msg = "XDG_RUNTIME_DIR not set; cannot reach the user session bus";
            proof {
                reveal_strlit("XDG_RUNTIME_DIR not set; cannot reach the user session bus");
                reveal_strlit("XDG_RUNTIME_DIR");
                lemma_mentions_at(msg@, "XDG_RUNTIME_DIR"@, 0);
            }
            return Err(PlatformError::Unavailable(msg.to_owned()));
        }
        let msg = "libei backend is a scaffold in M6; full xdg-desktop-portal + reis integration lands post-M10";
        proof {
            reveal_strlit("libei backend is a scaffold in M6; full xdg-desktop-portal + reis integration lands post-M10");
            reveal_strlit("scaffold");
            lemma_mentions_at(msg@, "scaffold"@, 19);
        }
        Err(PlatformError::Unavailable(msg.to_owned()))
    }

    /// The geometry recorded for this backend.
    pub closed spec fn screen_info_spec(&self) -> ScreenInfo {
        self.info
    }

    /// The geometry this backend reports.
    pub fn screen_info(&self) -> (r: ScreenInfo)
        ensures
            r == self.screen_info_spec(),
    {
        self.info
    }
}

/// The message a scaffold backend returns for an operation it does not
/// implement: it names the backend and the operation.
pub fn unsupported(backend: &str, op: &str) -> (e: PlatformError)
    ensures
        e matches PlatformError::Unavailable(msg) && mentions(msg@, backend@) && mentions(msg@, op@),
{
    let mut msg = backend.to_owned();
    let ghost b = msg@;
    msg.append(" backend is a scaffold; operation `");
    let ghost mid = msg@;
    msg.append(op);
    msg.append("` is not implemented");
    proof {
        lemma_mentions_at(msg@, backend@, 0);
        lemma_mentions_at(msg@, op@, mid.len() as int);
    }
    PlatformError::Unavailable(msg)
}

} // verus!
