//! Identifier and value types shared by the protocol, the platform
//! layer, the coordinator and the transfer engine.

use vstd::prelude::*;

verus! {

/// An X11 keysym identifying a key.
#[derive(Debug, Clone, Copy, PartialEq, Eq, Structural)]
pub struct KeyId(pub u32);

impl KeyId {
    /// Wrap a raw keysym.
    pub fn new(sym: u32) -> (k: KeyId)
        ensures
            k.0 == sym,
    {
        KeyId(sym)
    }

    /// The raw keysym.
    pub fn get(&self) -> (sym: u32)
        ensures
            sym == self.0,
    {
        self.0
    }
}

/// A mouse button number (1 = left, 2 = middle, 3 = right).
#[derive(Debug, Clone, Copy, PartialEq, Eq, Structural)]
pub struct ButtonId(pub u8);

impl ButtonId {
    /// The primary (left) mouse button.
    pub fn left() -> (b: ButtonId)
        ensures
            b.0 == 1,
    {
        ButtonId(1)
    }

    /// Wrap a raw button number.
    pub fn new(b: u8) -> (r: ButtonId)
        ensures
            r.0 == b,
    {
        ButtonId(b)
    }

    /// The raw button number.
    pub fn get(&self) -> (b: u8)
        ensures
            b == self.0,
    {
        self.0
    }
}

/// A set of modifier flags, one bit per modifier.
#[derive(Debug, Clone, Copy, PartialEq, Eq, Structural)]
pub struct ModifierMask(pub u32);

/// Does `mask` hold every bit of `flag`?
pub open spec fn mask_contains(mask: u32, flag: u32) -> bool {
    mask & flag == flag
}

impl ModifierMask {
    /// Shift.
    pub fn shift() -> (m: ModifierMask)
        ensures
            m.0 == 0x0001,
    {
        ModifierMask(0x0001)
    }
    /// Control.
    pub fn ctrl() -> (m: ModifierMask)
        ensures
            m.0 == 0x0002,
    {
        ModifierMask(0x0002)
    }
    /// Alt.
    pub fn alt() -> (m: ModifierMask)
        ensures
            m.0 == 0x0004,
    {
        ModifierMask(0x0004)
    }
    /// Meta (Cmd on macOS, Win on Windows).
    pub fn meta() -> (m: ModifierMask)
        ensures
            m.0 == 0x0008,
    {
        ModifierMask(0x0008)
    }
    /// Super.
    pub fn super_key() -> (m: ModifierMask)
        ensures
            m.0 == 0x0010,
    {
        ModifierMask(0x0010)
    }
    /// AltGr (ISO level 3 shift).
    pub fn alt_gr() -> (m: ModifierMask)
        ensures
            m.0 == 0x0020,
    {
        ModifierMask(0x0020)
    }
    /// Caps Lock.
    pub fn caps_lock() -> (m: ModifierMask)
        ensures
            m.0 == 0x1000,
    {
        ModifierMask(0x1000)
    }
    /// Num Lock.
    pub fn num_lock() -> (m: ModifierMask)
        ensures
            m.0 == 0x2000,
    {
        ModifierMask(0x2000)
    }
    /// Scroll Lock.
    pub fn scroll_lock() -> (m: ModifierMask)
        ensures
            m.0 == 0x4000,
    {
        ModifierMask(0x4000)
    }

    /// The mask with no modifier set.
    pub fn empty() -> (m: ModifierMask)
        ensures
            m.0 == 0,
    {
        ModifierMask(0)
    }

    /// Keep every bit, known or not.
    pub fn from_bits_retain(bits: u32) -> (m: ModifierMask)
        ensures
            m.0 == bits,
    {
        ModifierMask(bits)
    }

    /// The raw bits.
    pub fn bits(&self) -> (b: u32)
        ensures
            b == self.0,
    {
        self.0
    }

    /// Does this mask hold every flag of `other`?
    pub fn contains(&self, other: ModifierMask) -> (r: bool)
        ensures
            r == mask_contains(self.0, other.0),
    {
        self.0 & other.0 == other.0
    }

    /// Union of two masks.
    pub fn union(&self, other: ModifierMask) -> (m: ModifierMask)
        ensures
            m.0 == self.0 | other.0,
    {
        ModifierMask(self.0 | other.0)
    }
}

/// Which system clipboard.
#[derive(Debug, Clone, Copy, PartialEq, Eq, Structural)]
pub enum ClipboardId {
    /// The explicit copy/paste clipboard.
    Clipboard,
    /// The X11 primary selection.
    Primary,
}

/// Concrete format of a clipboard payload.
#[derive(Debug, Clone, Copy, PartialEq, Eq, Structural)]
pub enum ClipboardFormat {
    /// UTF-8 text.
    Text,
    /// HTML markup.
    Html,
    /// Bitmap image.
    Bitmap,
    /// A file list.
    Files,
    /// A format this build does not know.
    Unknown,
}

/// Why a file transfer was aborted.
#[derive(Debug, Clone, Copy, PartialEq, Eq, Structural)]
pub enum TransferCancelReason {
    /// The user cancelled.
    UserCancelled,
    /// The receiver ran out of disk space.
    DiskFull,
    /// A file changed size while it was being read.
    SizeMismatch,
    /// The peer failed for another reason.
    PeerError,
    /// A manifest path tried to escape the staging directory.
    PathTraversal,
    /// The transfer exceeded the configured limit.
    TooLarge,
    /// A reason this build does not know.
    Unknown,
}

/// Identifier of one file transfer.
pub type TransferId = u64;

/// One entry (file or directory) of a transfer manifest.
#[derive(Debug, PartialEq, Eq)]
pub struct FileManifestEntry {
    /// Path relative to the transfer root, `/`-separated.
    pub rel_path: String,
    /// Size in bytes (0 for directories).
    pub size: u64,
    /// Is this entry a directory?
    pub is_dir: bool,
}

/// Everything a receiver needs to know before the first chunk.
#[derive(Debug, PartialEq, Eq)]
pub struct FileManifest {
    /// Entries in transfer order.
    pub entries: Vec<FileManifestEntry>,
    /// Sum of the entry sizes.
    pub total_bytes: u64,
}

/// Mathematical value of a [`FileManifestEntry`].
pub struct FileManifestEntryView {
    pub rel_path: Seq<char>,
    pub size: u64,
    pub is_dir: bool,
}

impl View for FileManifestEntry {
    type V = FileManifestEntryView;

    open spec fn view(&self) -> FileManifestEntryView {
        FileManifestEntryView { rel_path: self.rel_path@, size: self.size, is_dir: self.is_dir }
    }
}

/// Mathematical value of a [`FileManifest`].
pub struct FileManifestView {
    pub entries: Seq<FileManifestEntryView>,
    pub total_bytes: u64,
}

impl View for FileManifest {
    type V = FileManifestView;

    open spec fn view(&self) -> FileManifestView {
        FileManifestView {
            entries: self.entries@.map_values(|e: FileManifestEntry| e@),
            total_bytes: self.total_bytes,
        }
    }
}

impl FileManifestEntry {
    /// Copy with the same value.
    pub fn duplicate(&self) -> (r: FileManifestEntry)
        ensures
            r@ == self@,
    {
        FileManifestEntry { rel_path: self.rel_path.clone(), size: self.size, is_dir: self.is_dir }
    }
}

impl FileManifest {
    /// Copy with the same value.
    pub fn duplicate(&self) -> (r: FileManifest)
        ensures
            r@ == self@,
    {
        let mut entries: Vec<FileManifestEntry> = Vec::new();
        let n = self.entries.len();
        let mut i: usize = 0;
        while i < n
            invariant
                n == self.entries.len(),
                i <= n,
                entries@.len() == i,
                forall|j: int| 0 <= j < i ==> (#[trigger] entries@[j])@ == self.entries@[j]@,
            decreases n - i,
        {
            entries.push(self.entries[i].duplicate());
            i = i + 1;
        }
        let r = FileManifest { entries, total_bytes: self.total_bytes };
        assert(r@.entries =~= self@.entries);
        r
    }
}

/// Copy of a byte vector with the same contents.
pub fn copy_bytes(v: &Vec<u8>) -> (r: Vec<u8>)
    ensures
        r@ == v@,
{
    let r = v.clone();
    assert(r@ =~= v@);
    r
}

} // verus!
