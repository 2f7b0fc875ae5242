//! File-clipboard transfer engine: errors, the receiver's bookkeeping and
//! the sender's checks.
//!
//! The receiver validates every manifest path before any chunk lands,
//! accepts chunks strictly in manifest order with contiguous offsets and
//! never past an entry's announced size, and only finalises when every
//! file got every byte. The file-system work around it is done by the
//! caller, which asks this state machine what to do.

use vstd::prelude::*;

use crate::common::{
    FileManifest, FileManifestEntry, FileManifestEntryView, FileManifestView, TransferCancelReason,
    TransferId,
};
use crate::path_guard::{joined, push_path, stays_inside, validate_rel_path};
use crate::protocol::{Message, MessageView};
use crate::text::{copy_string, decimal, push_decimal, string_push};

verus! {

/// Default chunk size in bytes (64 KiB).
pub const DEFAULT_CHUNK_BYTES: usize = 65536;

/// Everything that can go wrong during a transfer.
#[derive(Debug)]
pub enum TransferError {
    /// Filesystem I/O failure.
    Io {
        /// Path where the error occurred.
        path: String,
        /// The raw OS error number, when there is one.
        os_error: Option<i32>,
        /// Description of the error.
        message: String,
    },
    /// A manifest entry tried to escape the staging directory.
    PathTraversal { rel_path: String },
    /// Wrong chunk targeted for the current receiver state.
    UnexpectedChunk { entry_index: u32, total: u32 },
    /// A chunk would push a file past its manifest-declared size.
    SizeOverflow { entry_index: u32, overflow: u64 },
    /// Finalising with bytes missing.
    Incomplete { entry_index: u32, missing: u64 },
    /// Transfer exceeded the configured maximum.
    TooLarge { size: u64, max: u64 },
    /// A source file changed size mid-read.
    SourceChanged { path: String, expected: u64, got: u64 },
    /// A chunk for an earlier entry, or for a later one before the
    /// previous entry was complete.
    OutOfOrderChunk { entry_index: u32, last_seen: u32 },
    /// A chunk whose offset is not the count of bytes already written.
    OffsetMismatch { entry_index: u32, expected: u64, got: u64 },
}

/// `ENOSPC`: no space left on the device.
pub open spec fn storage_full(os_error: Option<i32>) -> bool {
    os_error == Some(28i32)
}

/// Does this OS error number mean the disk is full?
pub fn is_storage_full(os_error: Option<i32>) -> (r: bool)
    ensures
        r == storage_full(os_error),
{
    match os_error {
        Some(code) => code == 28,
        None => false,
    }
}

impl TransferError {
    /// The reason to announce in the wire-level cancel message.
    pub fn cancel_reason(&self) -> (r: TransferCancelReason)
        ensures
            r == match self {
                TransferError::PathTraversal { .. } => TransferCancelReason::PathTraversal,
                TransferError::SourceChanged { .. } => TransferCancelReason::SizeMismatch,
                TransferError::TooLarge { .. } => TransferCancelReason::TooLarge,
                TransferError::Io { os_error, .. } => if storage_full(*os_error) {
                    TransferCancelReason::DiskFull
                } else {
                    TransferCancelReason::PeerError
                },
                _ => TransferCancelReason::PeerError,
            },
    {
        match self {
            TransferError::PathTraversal { .. } => TransferCancelReason::PathTraversal,
            TransferError::SourceChanged { .. } => TransferCancelReason::SizeMismatch,
            TransferError::TooLarge { .. } => TransferCancelReason::TooLarge,
            TransferError::Io { os_error, .. } => if is_storage_full(*os_error) {
                TransferCancelReason::DiskFull
            } else {
                TransferCancelReason::PeerError
            },
            _ => TransferCancelReason::PeerError,
        }
    }
}

/// Name of a transfer's private staging directory: `transfer-<id>`.
pub open spec fn staging_name(id: TransferId) -> Seq<char> {
    "transfer-"@ + decimal(id as nat)
}

/// The staging directory of a transfer under `root`.
pub fn staging_dir(root: &str, transfer_id: TransferId) -> (r: String)
    ensures
        r@ == crate::path_guard::push_component(root@, staging_name(transfer_id)),
{
    let mut leaf = "transfer-".to_owned();
    push_decimal(&mut leaf, transfer_id);
    let mut out = root.to_owned();
    push_path(&mut out, leaf.as_str());
    out
}

/// The `suffix`-th candidate name for a finished transfer in the drop
/// directory: the leaf itself, then `leaf_1`, `leaf_2`, ...
pub fn candidate_name(leaf: &str, suffix: u64) -> (r: String)
    ensures
        r@ == (if suffix == 0 {
            leaf@
        } else {
            leaf@.push('_') + decimal(suffix as nat)
        }),
{
    let mut s = leaf.to_owned();
    if suffix > 0 {
        string_push(&mut s, '_');
        push_decimal(&mut s, suffix);
    }
    s
}

/// How many suffixed names are tried before giving up.
pub const MAX_NAME_SUFFIX: u64 = 128;

/// Describes a file that landed in the drop directory.
#[derive(Debug, PartialEq, Eq)]
pub struct ReceivedFile {
    /// Path where the file now lives.
    pub path: String,
    /// Byte count that was written.
    pub size: u64,
}

/// What the caller must do on the file system to absorb an accepted chunk.
#[derive(Debug, PartialEq, Eq)]
pub struct ChunkPlan {
    /// Flush and close the file of this entry first (the sender moved on).
    pub close_previous: Option<u32>,
    /// Create (truncate) the target file before writing, instead of
    /// appending to the one already open.
    pub open_new: bool,
    /// Where the chunk's bytes go.
    pub path: String,
}

/// Mathematical value of a [`TransferReceiver`].
#[verifier::ext_equal]
pub struct ReceiverView {
    pub transfer_id: TransferId,
    pub staging: Seq<char>,
    pub entries: Seq<FileManifestEntryView>,
    pub total_bytes: u64,
    pub paths: Seq<Seq<char>>,
    pub written: Seq<u64>,
    pub open_entry: Option<u32>,
    pub last_entry: Option<u32>,
}

/// The first check `on_chunk` fails, if any; `None` when the chunk is
/// accepted.
pub open spec fn chunk_error(v: ReceiverView, entry_index: u32, offset: u64, len: u64) -> Option<
    TransferErrorKind,
> {
    let idx = entry_index as int;
    if idx >= v.entries.len() || v.entries[idx].is_dir {
        Some(TransferErrorKind::UnexpectedChunk)
    } else if v.last_entry is Some && entry_index < v.last_entry->0 {
        Some(TransferErrorKind::OutOfOrderChunk)
    } else if v.last_entry is Some && entry_index > v.last_entry->0 && !v.entries[v.last_entry->0 as int].is_dir
        && v.written[v.last_entry->0 as int] != v.entries[v.last_entry->0 as int].size {
        Some(TransferErrorKind::OutOfOrderChunk)
    } else if offset != v.written[idx] {
        Some(TransferErrorKind::OffsetMismatch)
    } else if v.written[idx] + len > v.entries[idx].size {
        Some(TransferErrorKind::SizeOverflow)
    } else {
        None
    }
}

/// Does a chunk for `entry_index` move the receiver past its last entry
/// (which is then complete), closing that entry's file?
pub open spec fn advances(v: ReceiverView, entry_index: u32) -> bool {
    let idx = entry_index as int;
    &&& idx < v.entries.len()
    &&& !v.entries[idx].is_dir
    &&& v.last_entry is Some
    &&& entry_index > v.last_entry->0
    &&& (v.entries[v.last_entry->0 as int].is_dir || v.written[v.last_entry->0 as int] == v.entries[v.last_entry->0 as int].size)
}

/// Which kind of [`TransferError`] a check produces.
pub enum TransferErrorKind {
    UnexpectedChunk,
    OutOfOrderChunk,
    OffsetMismatch,
    SizeOverflow,
}

/// The file (non-directory) entries, in manifest order.
pub open spec fn file_entries(es: Seq<FileManifestEntryView>) -> Seq<FileManifestEntryView> {
    es.filter(|e: FileManifestEntryView| !e.is_dir)
}

/// The receiver after the `len` bytes of an accepted chunk for
/// `entry_index` are on disk: counted, and the entry is the open and the
/// last one.
pub open spec fn chunk_absorbed(v: ReceiverView, entry_index: u32, len: u64) -> ReceiverView {
    ReceiverView {
        written: v.written.update(entry_index as int, (v.written[entry_index as int] + len) as u64),
        open_entry: Some(entry_index),
        last_entry: Some(entry_index),
        ..v
    }
}

/// Staging paths of the empty file entries among the first `n` entries,
/// in manifest order.
pub open spec fn empty_files_upto(v: ReceiverView, n: int) -> Seq<Seq<char>>
    decreases n,
{
    if n <= 0 {
        Seq::empty()
    } else {
        let r = empty_files_upto(v, n - 1);
        if !v.entries[n - 1].is_dir && v.entries[n - 1].size == 0 {
            r.push(v.paths[n - 1])
        } else {
            r
        }
    }
}

/// Receiver well-formedness: one path and one byte count per entry,
/// counts within sizes, open and last entries are valid file entries.
pub open spec fn receiver_wf(v: ReceiverView) -> bool {
    &&& v.paths.len() == v.entries.len()
    &&& v.written.len() == v.entries.len()
    &&& forall|i: int| 0 <= i < v.entries.len() ==> #[trigger] v.written[i] <= v.entries[i].size
    &&& forall|i: int| 0 <= i < v.entries.len() && v.entries[i].is_dir ==> #[trigger] v.written[i] == 0
    &&& v.last_entry matches Some(l) ==> l < v.entries.len() && !v.entries[l as int].is_dir
    &&& v.open_entry matches Some(o) ==> o < v.entries.len() && !v.entries[o as int].is_dir
    &&& forall|i: int| 0 <= i < v.entries.len() ==> stays_inside(#[trigger] v.entries[i].rel_path)
    &&& forall|i: int| 0 <= i < v.entries.len() ==> #[trigger] v.paths[i] == joined(v.staging, v.entries[i].rel_path)
}

/// Transfer-receiver state machine.
#[derive(Debug)]
pub struct TransferReceiver {
    transfer_id: TransferId,
    staging: String,
    manifest: FileManifest,
    absolute_paths: Vec<String>,
    bytes_per_entry: Vec<u64>,
    open_entry: Option<u32>,
    last_entry: Option<u32>,
}

impl View for TransferReceiver {
    type V = ReceiverView;

    closed spec fn view(&self) -> ReceiverView {
        ReceiverView {
            transfer_id: self.transfer_id,
            staging: self.staging@,
            entries: self.manifest@.entries,
            total_bytes: self.manifest@.total_bytes,
            paths: self.absolute_paths@.map_values(|s: String| s@),
            written: self.bytes_per_entry@,
            open_entry: self.open_entry,
            last_entry: self.last_entry,
        }
    }
}

impl TransferReceiver {
    /// Start a receiver whose staging directory is `transfer-<id>` under
    /// `staging_root`. Every manifest path is validated against traversal
    /// first: the first one that escapes is reported.
    pub fn start(transfer_id: TransferId, manifest: FileManifest, staging_root: &str) -> (r: Result<
        TransferReceiver,
        TransferError,
    >)
        ensures
            (forall|i: int|
                0 <= i < manifest@.entries.len() ==> stays_inside(
                    #[trigger] manifest@.entries[i].rel_path,
                )) <==> r is Ok,
            r matches Err(e) ==> exists|i: int|
                0 <= i < manifest@.entries.len() && !stays_inside(manifest@.entries[i].rel_path) && (
                forall|j: int|
                    0 <= j < i ==> stays_inside(#[trigger] manifest@.entries[j].rel_path)) && (e matches TransferError::PathTraversal {
                    rel_path,
                } && rel_path@ == manifest@.entries[i].rel_path),
            r matches Ok(rx) ==> {
                &&& rx@.transfer_id == transfer_id
                &&& rx@.staging == crate::path_guard::push_component(
                    staging_root@,
                    staging_name(transfer_id),
                )
                &&& rx@.entries == manifest@.entries
                &&& rx@.total_bytes == manifest@.total_bytes
                &&& forall|i: int|
                    0 <= i < manifest@.entries.len() ==> #[trigger] rx@.paths[i] == joined(
                        rx@.staging,
                        manifest@.entries[i].rel_path,
                    )
                &&& forall|i: int| 0 <= i < manifest@.entries.len() ==> #[trigger] rx@.written[i] == 0
                &&& rx@.open_entry is None
                &&& rx@.last_entry is None
                &&& receiver_wf(rx@)
            },
    {
        let staging = staging_dir(staging_root, transfer_id);
        let n = manifest.entries.len();
        let mut paths: Vec<String> = Vec::new();
        let mut bytes: Vec<u64> = Vec::new();
        let mut i: usize = 0;
        while i < n
            invariant
                n == manifest.entries@.len(),
                i <= n,
                paths@.len() == i,
                bytes@.len() == i,
                forall|j: int| 0 <= j < i ==> stays_inside(#[trigger] manifest@.entries[j].rel_path),
                forall|j: int|
                    0 <= j < i ==> #[trigger] paths@[j]@ == joined(staging@, manifest@.entries[j].rel_path),
                forall|j: int| 0 <= j < i ==> #[trigger] bytes@[j] == 0,
            decreases n - i,
        {
            assert(manifest@.entries[i as int] == manifest.entries@[i as int]@);
            let abs = match validate_rel_path(staging.as_str(), manifest.entries[i].rel_path.as_str()) {
                Ok(abs) => abs,
                Err(e) => {
                    assert(!stays_inside(manifest@.entries[i as int].rel_path));
                    return Err(e);
                },
            };
            paths.push(abs);
            bytes.push(0);
            i = i + 1;
        }
        let rx = TransferReceiver {
            transfer_id,
            staging,
            manifest,
            absolute_paths: paths,
            bytes_per_entry: bytes,
            open_entry: None,
            last_entry: None,
        };
        assert forall|j: int| 0 <= j < rx@.entries.len() implies #[trigger] rx@.written[j] <= rx@.entries[j].size by {}
        Ok(rx)
    }

    /// Number of manifest entries.
    pub fn entry_count(&self) -> (r: usize)
        ensures
            r == self@.entries.len(),
    {
        self.manifest.entries.len()
    }

    /// Path of entry `i` under the staging directory.
    pub fn entry_path(&self, i: usize) -> (r: &String)
        requires
            receiver_wf(self@),
            i < self@.entries.len(),
        ensures
            r@ == self@.paths[i as int],
    {
        &self.absolute_paths[i]
    }

    /// Is entry `i` a directory?
    pub fn entry_is_dir(&self, i: usize) -> (r: bool)
        requires
            i < self@.entries.len(),
        ensures
            r == self@.entries[i as int].is_dir,
    {
        self.manifest.entries[i].is_dir
    }

    /// The entry whose file is open, if any.
    pub fn open_entry(&self) -> (r: Option<u32>)
        ensures
            r == self@.open_entry,
    {
        self.open_entry
    }

    /// The staging directory.
    pub fn staging(&self) -> (r: &String)
        ensures
            r@ == self@.staging,
    {
        &self.staging
    }

    /// The transfer id.
    pub fn transfer_id(&self) -> (r: TransferId)
        ensures
            r == self@.transfer_id,
    {
        self.transfer_id
    }

    /// Decide on a chunk of `len` bytes at `offset` for entry `entry_index`.
    ///
    /// Entries are taken strictly in order: a chunk for an earlier entry,
    /// or for a later one before the previous file got every byte, is out
    /// of order. Within an entry the offset must equal the bytes already
    /// written, and the entry must not grow past its manifest size. When
    /// the sender moves to a later entry the previous file is closed (even
    /// if this chunk is then refused). An accepted chunk hands the open
    /// file to the writer: nothing is open until [`Self::chunk_written`]
    /// records the bytes once they are on disk, so a failed write leaves
    /// the counts as they were.
    pub fn on_chunk(&mut self, entry_index: u32, offset: u64, len: u64) -> (r: Result<ChunkPlan, TransferError>)
        requires
            receiver_wf(old(self)@),
        ensures
            receiver_wf(final(self)@),
            final(self)@ == (ReceiverView { open_entry: final(self)@.open_entry, ..old(self)@ }),
            chunk_error(old(self)@, entry_index, offset, len) is None <==> r is Ok,
            match chunk_error(old(self)@, entry_index, offset, len) {
                Some(TransferErrorKind::UnexpectedChunk) => r matches Err(TransferError::UnexpectedChunk { entry_index: e, total }) && e == entry_index && total == (if old(self)@.entries.len() <= u32::MAX { old(self)@.entries.len() } else { u32::MAX as nat }),
                Some(TransferErrorKind::OutOfOrderChunk) => r matches Err(TransferError::OutOfOrderChunk { entry_index: e, last_seen }) && e == entry_index && Some(last_seen) == old(self)@.last_entry,
                Some(TransferErrorKind::OffsetMismatch) => r matches Err(TransferError::OffsetMismatch { entry_index: e, expected, got }) && e == entry_index && expected == old(self)@.written[entry_index as int] && got == offset,
                Some(TransferErrorKind::SizeOverflow) => r matches Err(TransferError::SizeOverflow { entry_index: e, overflow }) && e == entry_index && overflow == old(self)@.written[entry_index as int] + len - old(self)@.entries[entry_index as int].size,
                None => true,
            },
            r is Err ==> final(self)@.open_entry == (if advances(old(self)@, entry_index) {
                None
            } else {
                old(self)@.open_entry
            }),
            r matches Ok(plan) ==> {
                let idx = entry_index as int;
                &&& final(self)@.open_entry is None
                &&& plan.path@ == old(self)@.paths[idx]
                &&& plan.close_previous == (if old(self)@.last_entry is Some && entry_index > old(self)@.last_entry->0 {
                    old(self)@.open_entry
                } else {
                    None
                })
                &&& plan.open_new == (plan.close_previous is Some || old(self)@.open_entry != Some(entry_index))
            },
    {
        let n = self.manifest.entries.len();
        let total: u32 = if n <= 4294967295 { n as u32 } else { 4294967295 };
        let idx = entry_index as usize;
        if idx >= self.manifest.entries.len() {
            return Err(TransferError::UnexpectedChunk { entry_index, total });
        }
        assert(self@.entries[idx as int] == self.manifest.entries@[idx as int]@);
        if self.manifest.entries[idx].is_dir {
            return Err(TransferError::UnexpectedChunk { entry_index, total });
        }
        let mut close_previous: Option<u32> = None;
        if let Some(last) = self.last_entry {
            if entry_index < last {
                return Err(TransferError::OutOfOrderChunk { entry_index, last_seen: last });
            }
            if entry_index > last {
                let prev = last as usize;
                assert(self@.entries[prev as int] == self.manifest.entries@[prev as int]@);
                if !self.manifest.entries[prev].is_dir && self.bytes_per_entry[prev] != self.manifest.entries[prev].size {
                    return Err(TransferError::OutOfOrderChunk { entry_index, last_seen: last });
                }
                close_previous = self.open_entry;
                self.open_entry = None;
            }
        }
        let written = self.bytes_per_entry[idx];
        if offset != written {
            return Err(TransferError::OffsetMismatch { entry_index, expected: written, got: offset });
        }
        let expected = self.manifest.entries[idx].size;
        if len > expected - written {
            return Err(TransferError::SizeOverflow { entry_index, overflow: len - (expected - written) });
        }
        let open_new = match self.open_entry {
            Some(o) => o != entry_index,
            None => true,
        };
        let path = copy_string(&self.absolute_paths[idx]);
        assert(self@.paths[idx as int] == self.absolute_paths@[idx as int]@);
        self.open_entry = None;
        Ok(ChunkPlan { close_previous, open_new, path })
    }

    /// Record that the `len` bytes of a chunk accepted by
    /// [`Self::on_chunk`] for `entry_index` are on disk: they are counted
    /// and the entry becomes the open and the last one. Returns `false`,
    /// and changes nothing, when those bytes would not be accepted as the
    /// entry's next chunk.
    pub fn chunk_written(&mut self, entry_index: u32, len: u64) -> (r: bool)
        requires
            receiver_wf(old(self)@),
        ensures
            receiver_wf(final(self)@),
            r == (chunk_error(old(self)@, entry_index, old(self)@.written[entry_index as int], len) is None),
            !r ==> final(self)@ == old(self)@,
            r ==> final(self)@ == chunk_absorbed(old(self)@, entry_index, len),
    {
        let idx = entry_index as usize;
        if idx >= self.manifest.entries.len() {
            return false;
        }
        assert(self@.entries[idx as int] == self.manifest.entries@[idx as int]@);
        if self.manifest.entries[idx].is_dir {
            return false;
        }
        if let Some(last) = self.last_entry {
            if entry_index < last {
                return false;
            }
            if entry_index > last {
                let prev = last as usize;
                assert(self@.entries[prev as int] == self.manifest.entries@[prev as int]@);
                if !self.manifest.entries[prev].is_dir && self.bytes_per_entry[prev] != self.manifest.entries[prev].size {
                    return false;
                }
            }
        }
        let written = self.bytes_per_entry[idx];
        let expected = self.manifest.entries[idx].size;
        if len > expected - written {
            return false;
        }
        let ghost v = self@;
        self.bytes_per_entry.set(idx, written + len);
        self.open_entry = Some(entry_index);
        self.last_entry = Some(entry_index);
        assert(self@ =~= chunk_absorbed(v, entry_index, len));
        true
    }

    /// Check that every file entry got every byte its manifest promised;
    /// the first short entry is reported.
    pub fn check_complete(&self) -> (r: Result<(), TransferError>)
        requires
            receiver_wf(self@),
        ensures
            r is Ok <==> forall|i: int|
                0 <= i < self@.entries.len() && !self@.entries[i].is_dir ==> #[trigger] self@.written[i]
                    == self@.entries[i].size,
            r matches Err(e) ==> exists|i: int|
                0 <= i < self@.entries.len() && !self@.entries[i].is_dir && self@.written[i]
                    != self@.entries[i].size && (forall|j: int|
                    0 <= j < i && !self@.entries[j].is_dir ==> #[trigger] self@.written[j]
                        == self@.entries[j].size) && (e matches TransferError::Incomplete {
                    entry_index,
                    missing,
                } && entry_index == (if i <= u32::MAX {
                    i
                } else {
                    u32::MAX as int
                }) && missing == self@.entries[i].size - self@.written[i]),
    {
        let n = self.manifest.entries.len();
        let mut i: usize = 0;
        while i < n
            invariant
                n == self@.entries.len(),
                receiver_wf(self@),
                i <= n,
                forall|j: int|
                    0 <= j < i && !self@.entries[j].is_dir ==> #[trigger] self@.written[j]
                        == self@.entries[j].size,
            decreases n - i,
        {
            assert(self@.entries[i as int] == self.manifest.entries@[i as int]@);
            if !self.manifest.entries[i].is_dir {
                let written = self.bytes_per_entry[i];
                let size = self.manifest.entries[i].size;
                if written != size {
                    let entry_index: u32 = if i <= 4294967295 {
                        i as u32
                    } else {
                        4294967295
                    };
                    return Err(TransferError::Incomplete { entry_index, missing: size - written });
                }
            }
            i = i + 1;
        }
        Ok(())
    }

    /// Paths under the staging directory of the empty file entries, in
    /// manifest order: no chunk carries their bytes, so the caller creates
    /// them before the staging directory moves.
    pub fn empty_file_paths(&self) -> (r: Vec<String>)
        requires
            receiver_wf(self@),
        ensures
            r@.map_values(|s: String| s@) == empty_files_upto(self@, self@.entries.len() as int),
    {
        let n = self.manifest.entries.len();
        let mut out: Vec<String> = Vec::new();
        let mut i: usize = 0;
        while i < n
            invariant
                n == self@.entries.len(),
                receiver_wf(self@),
                i <= n,
                out@.map_values(|s: String| s@) == empty_files_upto(self@, i as int),
            decreases n - i,
        {
            assert(self@.entries[i as int] == self.manifest.entries@[i as int]@);
            if !self.manifest.entries[i].is_dir && self.manifest.entries[i].size == 0 {
                let p = copy_string(&self.absolute_paths[i]);
                assert(self@.paths[i as int] == self.absolute_paths@[i as int]@);
                let ghost before = out@;
                out.push(p);
                assert(out@.map_values(|s: String| s@) =~= before.map_values(|s: String| s@).push(p@));
            }
            i = i + 1;
        }
        out
    }

    /// Abort the transfer; returns the entry whose file is still open, for
    /// the caller to close before it removes the staging directory.
    pub fn cancel(self, reason: TransferCancelReason) -> (r: Option<u32>)
        ensures
            r == self@.open_entry,
    {
        self.open_entry
    }

    /// Where each file entry lands once the staging directory has been
    /// moved to `final_base`, in manifest order (directories omitted).
    pub fn final_files(&self, final_base: &str) -> (r: Vec<ReceivedFile>)
        requires
            receiver_wf(self@),
        ensures
            r@.len() == file_entries(self@.entries).len(),
            forall|k: int| 0 <= k < r@.len() ==> {
                let e = #[trigger] file_entries(self@.entries)[k];
                &&& r@[k].path@ == joined(final_base@, e.rel_path)
                &&& r@[k].size == e.size
            },
    {
        let n = self.manifest.entries.len();
        let mut out: Vec<ReceivedFile> = Vec::new();
        let ghost es = self@.entries;
        let mut i: usize = 0;
        assert(file_entries(es.subrange(0, 0)) =~= Seq::<FileManifestEntryView>::empty()) by {
            reveal(Seq::filter);
        }
        while i < n
            invariant
                n == es.len(),
                es == self@.entries,
                receiver_wf(self@),
                i <= n,
                out@.len() == file_entries(es.subrange(0, i as int)).len(),
                forall|k: int| 0 <= k < out@.len() ==> {
                    let e = #[trigger] file_entries(es.subrange(0, i as int))[k];
                    &&& out@[k].path@ == joined(final_base@, e.rel_path)
                    &&& out@[k].size == e.size
                },
            decreases n - i,
        {
            let ghost prev = file_entries(es.subrange(0, i as int));
            proof {
                reveal(Seq::filter);
                assert(es.subrange(0, i + 1).drop_last() =~= es.subrange(0, i as int));
                assert(es.subrange(0, i + 1).last() == es[i as int]);
            }
            assert(es[i as int] == self.manifest.entries@[i as int]@);
            if !self.manifest.entries[i].is_dir {
                let p = validate_rel_path(final_base, self.manifest.entries[i].rel_path.as_str());
                let path = match p {
                    Ok(s) => s,
                    Err(_) => {
                        proof {
                            assert(stays_inside(es[i as int].rel_path));
                        }
                        copy_string(&self.manifest.entries[i].rel_path)
                    },
                };
                out.push(ReceivedFile { path, size: self.manifest.entries[i].size });
            }
            i = i + 1;
        }
        assert(es.subrange(0, n as int) =~= es);
        out
    }
}


/// Every file a receiver writes lies strictly inside its staging
/// directory.
pub proof fn lemma_receiver_writes_inside_staging(v: ReceiverView, i: int)
    requires
        receiver_wf(v),
        0 <= i < v.entries.len(),
    ensures
        v.paths[i].len() > v.staging.len(),
        v.paths[i].subrange(0, v.staging.len() as int) == v.staging,
{
    crate::path_guard::lemma_accepted_path_is_inside(v.staging, v.entries[i].rel_path);
}

/// Sum of the entry sizes.
pub open spec fn sum_sizes(es: Seq<FileManifestEntryView>) -> int
    decreases es.len(),
{
    if es.len() == 0 {
        0
    } else {
        sum_sizes(es.drop_last()) + es.last().size
    }
}

/// Build a manifest whose total is the sum of the entry sizes.
pub fn manifest_from_entries(entries: Vec<FileManifestEntry>) -> (m: FileManifest)
    requires
        sum_sizes(entries@.map_values(|e: FileManifestEntry| e@)) <= u64::MAX,
    ensures
        m@.entries == entries@.map_values(|e: FileManifestEntry| e@),
        m@.total_bytes == sum_sizes(m@.entries),
{
    let ghost es = entries@.map_values(|e: FileManifestEntry| e@);
    let n = entries.len();
    let mut total: u64 = 0;
    let mut i: usize = 0;
    while i < n
        invariant
            n == entries@.len(),
            es == entries@.map_values(|e: FileManifestEntry| e@),
            sum_sizes(es) <= u64::MAX,
            i <= n,
            total == sum_sizes(es.subrange(0, i as int)),
        decreases n - i,
    {
        assert(es.subrange(0, i + 1).drop_last() =~= es.subrange(0, i as int));
        proof {
            lemma_sum_prefix_le(es, i as int + 1);
        }
        total = total + entries[i].size;
        i = i + 1;
    }
    assert(es.subrange(0, n as int) =~= es);
    FileManifest { entries, total_bytes: total }
}

/// A prefix never sums to more than the whole.
pub proof fn lemma_sum_prefix_le(es: Seq<FileManifestEntryView>, k: int)
    requires
        0 <= k <= es.len(),
    ensures
        sum_sizes(es.subrange(0, k)) <= sum_sizes(es),
    decreases es.len() - k,
{
    if k < es.len() {
        lemma_sum_prefix_le(es, k + 1);
        assert(es.subrange(0, k + 1).drop_last() =~= es.subrange(0, k));
    } else {
        assert(es.subrange(0, k) =~= es);
    }
}

/// Refuse a transfer whose manifest total exceeds `max_transfer_bytes`.
pub fn check_transfer_size(manifest: &FileManifest, max_transfer_bytes: u64) -> (r: Result<(), TransferError>)
    ensures
        r is Ok <==> manifest@.total_bytes <= max_transfer_bytes,
        r matches Err(e) ==> e matches TransferError::TooLarge { size, max } && size == manifest@.total_bytes && max == max_transfer_bytes,
{
    if manifest.total_bytes > max_transfer_bytes {
        return Err(TransferError::TooLarge { size: manifest.total_bytes, max: max_transfer_bytes });
    }
    Ok(())
}

/// Account for `n` more bytes read from a source file announced at
/// `expected` bytes: the running total, or `SourceChanged` once the file
/// has grown past its announced size.
pub fn account_read(path: &str, bytes_read: u64, n: u64, expected: u64) -> (r: Result<u64, TransferError>)
    requires
        bytes_read + n <= u64::MAX,
    ensures
        bytes_read + n <= expected <==> r is Ok,
        r matches Ok(t) ==> t == bytes_read + n,
        r matches Err(e) ==> e matches TransferError::SourceChanged { path: p, expected: x, got } && p@ == path@ && x == expected && got == bytes_read + n,
{
    let total = bytes_read + n;
    if total > expected {
        return Err(TransferError::SourceChanged { path: path.to_owned(), expected, got: total });
    }
    Ok(total)
}

/// At end of file, the bytes read must match the announced size.
pub fn check_read_complete(path: &str, bytes_read: u64, expected: u64) -> (r: Result<(), TransferError>)
    ensures
        r is Ok <==> bytes_read == expected,
        r matches Err(e) ==> e matches TransferError::SourceChanged { path: p, expected: x, got } && p@ == path@ && x == expected && got == bytes_read,
{
    if bytes_read != expected {
        return Err(TransferError::SourceChanged { path: path.to_owned(), expected, got: bytes_read });
    }
    Ok(())
}

/// Drives a single outbound file transfer.
#[derive(Debug)]
pub struct TransferSender {
    /// Transfer id stamped on every message.
    pub transfer_id: TransferId,
    /// Bytes per chunk.
    pub chunk_size: usize,
}

impl TransferSender {
    /// A sender with the given id and chunk size.
    pub fn new(transfer_id: TransferId, chunk_size: usize) -> (s: TransferSender)
        ensures
            s.transfer_id == transfer_id,
            s.chunk_size == chunk_size,
    {
        TransferSender { transfer_id, chunk_size }
    }

    /// The chunk message carrying `data`, read from entry `entry_index`
    /// of this transfer starting `offset` bytes into the file (the bytes
    /// already sent from it).
    pub fn chunk_message(&self, entry_index: u32, offset: u64, data: Vec<u8>) -> (m: Message)
        ensures
            m@ == (MessageView::FileChunk { transfer_id: self.transfer_id, entry_index, offset, data: data@ }),
    {
        Message::FileChunk { transfer_id: self.transfer_id, entry_index, offset, data }
    }

    /// A sender using [`DEFAULT_CHUNK_BYTES`].
    pub fn with_default_chunking(transfer_id: TransferId) -> (s: TransferSender)
        ensures
            s.transfer_id == transfer_id,
            s.chunk_size == DEFAULT_CHUNK_BYTES,
    {
        TransferSender::new(transfer_id, DEFAULT_CHUNK_BYTES)
    }
}

// ---- a whole transfer --------------------------------------------------

/// Sum of a list of piece lengths.
pub open spec fn pieces_total(ls: Seq<u64>) -> nat
    decreases ls.len(),
{
    if ls.len() == 0 {
        0
    } else {
        ls[0] as nat + pieces_total(ls.drop_first())
    }
}

/// The chunks the sender sends for entry `i` when it reads the file in
/// pieces of lengths `ls`, starting `off` bytes in: each chunk carries
/// the entry, the bytes already read before it, and its length (see
/// [`TransferSender::chunk_message`] and [`account_read`]).
pub open spec fn entry_chunks(i: u32, ls: Seq<u64>, off: int) -> Seq<(u32, u64, u64)>
    decreases ls.len(),
{
    if ls.len() == 0 {
        Seq::empty()
    } else {
        seq![(i, off as u64, ls[0])] + entry_chunks(i, ls.drop_first(), off + ls[0])
    }
}

/// The chunk stream of a transfer from entry `k` on: the chunks of each
/// entry in manifest order (`pieces[i]` are the reads of entry `i`).
pub open spec fn chunk_stream(n: int, pieces: Seq<Seq<u64>>, k: int) -> Seq<(u32, u64, u64)>
    decreases n - k,
{
    if k < 0 || k >= n {
        Seq::empty()
    } else {
        entry_chunks(k as u32, pieces[k], 0) + chunk_stream(n, pieces, k + 1)
    }
}

/// A successful send: a directory is not read, and each file is read
/// in pieces whose lengths add up to the size its entry announces (what
/// [`account_read`] and [`check_read_complete`] accept).
pub open spec fn read_in_pieces(es: Seq<FileManifestEntryView>, pieces: Seq<Seq<u64>>) -> bool {
    &&& pieces.len() == es.len()
    &&& forall|i: int| 0 <= i < es.len() && es[i].is_dir ==> (#[trigger] pieces[i]).len() == 0
    &&& forall|i: int| 0 <= i < es.len() && !es[i].is_dir ==> pieces_total(#[trigger] pieces[i]) == es[i].size
}

/// The receiver fed the chunks `cs` in order, each written once it is
/// accepted (see [`TransferReceiver::on_chunk`] and
/// [`TransferReceiver::chunk_written`]); `None` as soon as one is refused.
pub open spec fn receive_all(v: ReceiverView, cs: Seq<(u32, u64, u64)>) -> Option<ReceiverView>
    decreases cs.len(),
{
    if cs.len() == 0 {
        Some(v)
    } else if chunk_error(v, cs[0].0, cs[0].1, cs[0].2) is None {
        receive_all(chunk_absorbed(v, cs[0].0, cs[0].2), cs.drop_first())
    } else {
        None
    }
}

/// Every file entry has every byte its manifest announces (what
/// [`TransferReceiver::check_complete`] accepts).
pub open spec fn all_received(v: ReceiverView) -> bool {
    forall|i: int| 0 <= i < v.entries.len() && !v.entries[i].is_dir ==> #[trigger] v.written[i] == v.entries[i].size
}

/// Entries before `k` are complete, later ones untouched, and the last
/// entry taken is a file entry before `k`.
spec fn done_before(v: ReceiverView, k: int) -> bool {
    &&& v.written.len() == v.entries.len()
    &&& 0 <= k <= v.entries.len()
    &&& forall|j: int| 0 <= j < k && !v.entries[j].is_dir ==> #[trigger] v.written[j] == v.entries[j].size
    &&& forall|j: int| k <= j < v.entries.len() ==> #[trigger] v.written[j] == 0
    &&& v.last_entry matches Some(l) ==> l < k && !v.entries[l as int].is_dir
}

/// Entry `k` is a file being filled, `off` bytes in; earlier entries are
/// complete, later ones untouched, and the last entry taken is a file
/// entry not after `k`.
spec fn filling(v: ReceiverView, k: int, off: int) -> bool {
    &&& v.written.len() == v.entries.len()
    &&& 0 <= k < v.entries.len()
    &&& !v.entries[k].is_dir
    &&& forall|j: int| 0 <= j < k && !v.entries[j].is_dir ==> #[trigger] v.written[j] == v.entries[j].size
    &&& forall|j: int| k < j < v.entries.len() ==> #[trigger] v.written[j] == 0
    &&& v.written[k] == off
    &&& v.last_entry matches Some(l) ==> l <= k && !v.entries[l as int].is_dir
}

/// The receiver once the pieces `ls` of entry `k` are taken, `off` bytes
/// in.
spec fn entry_taken(v: ReceiverView, k: int, ls: Seq<u64>, off: int) -> ReceiverView {
    if ls.len() == 0 {
        v
    } else {
        ReceiverView {
            written: v.written.update(k, (off + pieces_total(ls)) as u64),
            open_entry: Some(k as u32),
            last_entry: Some(k as u32),
            ..v
        }
    }
}

/// The chunks of one entry are each accepted, in order.
proof fn lemma_entry_received(v: ReceiverView, k: int, ls: Seq<u64>, off: int, rest: Seq<(u32, u64, u64)>)
    requires
        filling(v, k, off),
        k <= u32::MAX,
        off + pieces_total(ls) <= v.entries[k].size,
    ensures
        receive_all(v, entry_chunks(k as u32, ls, off) + rest) == receive_all(entry_taken(v, k, ls, off), rest),
        filling(entry_taken(v, k, ls, off), k, off + pieces_total(ls)),
        entry_taken(v, k, ls, off).entries == v.entries,
    decreases ls.len(),
{
    if ls.len() == 0 {
        assert(entry_chunks(k as u32, ls, off) + rest =~= rest);
    } else {
        let len = ls[0];
        let t = ls.drop_first();
        let cs = entry_chunks(k as u32, ls, off) + rest;
        assert(cs =~= seq![(k as u32, off as u64, len)] + (entry_chunks(k as u32, t, off + len) + rest));
        assert(cs.drop_first() =~= entry_chunks(k as u32, t, off + len) + rest);
        assert(chunk_error(v, k as u32, off as u64, len) is None) by {
            if v.last_entry is Some {
                let l = v.last_entry->0 as int;
                if l < k {
                    assert(v.written[l] == v.entries[l].size);
                }
            }
        }
        let v1 = chunk_absorbed(v, k as u32, len);
        assert(filling(v1, k, off + len));
        lemma_entry_received(v1, k, t, off + len, rest);
        assert(entry_taken(v1, k, t, off + len) =~= entry_taken(v, k, ls, off));
    }
}

/// The chunk stream from entry `k` on is accepted whole and completes
/// every file.
proof fn lemma_stream_received(v: ReceiverView, pieces: Seq<Seq<u64>>, k: int)
    requires
        done_before(v, k),
        v.entries.len() <= u32::MAX + 1,
        read_in_pieces(v.entries, pieces),
    ensures
        receive_all(v, chunk_stream(v.entries.len() as int, pieces, k)) matches Some(w) && all_received(w)
            && w.entries == v.entries,
    decreases v.entries.len() - k,
{
    let n = v.entries.len() as int;
    if k == n {
        assert(chunk_stream(n, pieces, k) =~= Seq::<(u32, u64, u64)>::empty());
    } else {
        let ls = pieces[k];
        let rest = chunk_stream(n, pieces, k + 1);
        assert(chunk_stream(n, pieces, k) == entry_chunks(k as u32, ls, 0) + rest);
        if v.entries[k].is_dir {
            assert(ls.len() == 0);
            assert(entry_chunks(k as u32, ls, 0) + rest =~= rest);
            assert(done_before(v, k + 1));
            lemma_stream_received(v, pieces, k + 1);
        } else {
            assert(filling(v, k, 0));
            lemma_entry_received(v, k, ls, 0, rest);
            let v2 = entry_taken(v, k, ls, 0);
            assert(done_before(v2, k + 1));
            lemma_stream_received(v2, pieces, k + 1);
        }
    }
}

/// A directory sent in full is received in full: from a fresh receiver
/// (as [`TransferReceiver::start`] leaves it), every chunk the sender
/// sends, entry by entry in manifest order with the offsets it read at,
/// is accepted, and afterwards every file entry has every byte, so the
/// transfer completes.
pub proof fn lemma_sent_directory_is_received(v: ReceiverView, pieces: Seq<Seq<u64>>)
    requires
        receiver_wf(v),
        v.entries.len() <= u32::MAX + 1,
        forall|i: int| 0 <= i < v.entries.len() ==> #[trigger] v.written[i] == 0,
        v.last_entry is None,
        read_in_pieces(v.entries, pieces),
    ensures
        receive_all(v, chunk_stream(v.entries.len() as int, pieces, 0)) matches Some(w) && all_received(w),
{
    lemma_stream_received(v, pieces, 0);
}

} // verus!
