//! Server-side view of who owns which clipboard right now.
//!
//! Only ownership and the monotonic sequence number that stamped it are
//! recorded, so stale grabs racing in from an earlier screen crossing can
//! be discarded.

use vstd::prelude::*;

use crate::common::ClipboardId;
use crate::layout::ScreenName;
use crate::text::str_eq;

verus! {

/// Ownership of one clipboard.
#[derive(Debug, PartialEq, Eq)]
pub struct GrabRecord {
    /// Screen that currently owns this clipboard.
    pub owner: ScreenName,
    /// Monotonic seq the grab was announced with.
    pub seq: u32,
}

/// Mathematical value of a [`GrabRecord`].
pub struct GrabRecordView {
    pub owner: Seq<char>,
    pub seq: u32,
}

impl View for GrabRecord {
    type V = GrabRecordView;

    open spec fn view(&self) -> GrabRecordView {
        GrabRecordView { owner: self.owner@, seq: self.seq }
    }
}

/// The table described by the two slots.
pub open spec fn slots_table(
    clipboard: Option<GrabRecordView>,
    primary: Option<GrabRecordView>,
) -> Map<ClipboardId, GrabRecordView> {
    let m = match clipboard {
        Some(r) => Map::empty().insert(ClipboardId::Clipboard, r),
        None => Map::empty(),
    };
    match primary {
        Some(r) => m.insert(ClipboardId::Primary, r),
        None => m,
    }
}

/// The record's view, if any.
pub open spec fn opt_view(o: Option<GrabRecord>) -> Option<GrabRecordView> {
    match o {
        Some(r) => Some(r@),
        None => None,
    }
}

/// Would a grab with `seq` be accepted against `table`?
pub open spec fn grab_accepted(table: Map<ClipboardId, GrabRecordView>, id: ClipboardId, seq: u32) -> bool {
    table.dom().contains(id) ==> seq > table[id].seq
}

/// `table` without the records owned by `name`.
pub open spec fn without_owner(table: Map<ClipboardId, GrabRecordView>, name: Seq<char>) -> Map<
    ClipboardId,
    GrabRecordView,
> {
    Map::new(|k: ClipboardId| table.dom().contains(k) && table[k].owner != name, |k: ClipboardId| table[k])
}

/// Per-clipboard ownership table.
#[derive(Debug, Default)]
pub struct ClipboardGrabState {
    clipboard: Option<GrabRecord>,
    primary: Option<GrabRecord>,
}

impl ClipboardGrabState {
    /// The ownership table: clipboard id to owner and seq.
    pub closed spec fn table(&self) -> Map<ClipboardId, GrabRecordView> {
        slots_table(opt_view(self.clipboard), opt_view(self.primary))
    }

    /// No clipboard owned.
    pub fn new() -> (s: ClipboardGrabState)
        ensures
            s.table() == Map::<ClipboardId, GrabRecordView>::empty(),
    {
        let s = ClipboardGrabState { clipboard: None, primary: None };
        assert(s.table() =~= Map::<ClipboardId, GrabRecordView>::empty());
        s
    }

    fn slot(&self, id: ClipboardId) -> (r: &Option<GrabRecord>)
        ensures
            opt_view(*r) == (if self.table().dom().contains(id) {
                Some(self.table()[id])
            } else {
                None
            }),
    {
        match id {
            ClipboardId::Clipboard => &self.clipboard,
            ClipboardId::Primary => &self.primary,
        }
    }

    /// Current seq for a clipboard; `0` if no grab has been seen for it.
    pub fn current_seq(&self, id: ClipboardId) -> (r: u32)
        ensures
            r == (if self.table().dom().contains(id) {
                self.table()[id].seq
            } else {
                0
            }),
    {
        match self.slot(id) {
            Some(rec) => rec.seq,
            None => 0,
        }
    }

    /// Who currently owns this clipboard, if anyone.
    pub fn owner_of(&self, id: ClipboardId) -> (r: Option<&ScreenName>)
        ensures
            match r {
                Some(o) => self.table().dom().contains(id) && o@ == self.table()[id].owner,
                None => !self.table().dom().contains(id),
            },
    {
        match self.slot(id) {
            Some(rec) => Some(&rec.owner),
            None => None,
        }
    }

    /// Apply a newly received grab. It is accepted, and recorded, only
    /// when `seq` is strictly newer than the recorded one (or nothing is
    /// recorded); a `false` return means the grab was stale.
    pub fn on_grab(&mut self, from: ScreenName, id: ClipboardId, seq: u32) -> (r: bool)
        ensures
            r == grab_accepted(old(self).table(), id, seq),
            r ==> final(self).table() == old(self).table().insert(
                id,
                GrabRecordView { owner: from@, seq },
            ),
            !r ==> final(self).table() == old(self).table(),
    {
        let existing = self.current_seq(id);
        let has = match self.slot(id) {
            Some(_) => true,
            None => false,
        };
        if has && seq <= existing {
            return false;
        }
        let rec = GrabRecord { owner: from, seq };
        match id {
            ClipboardId::Clipboard => {
                self.clipboard = Some(rec);
            },
            ClipboardId::Primary => {
                self.primary = Some(rec);
            },
        }
        assert(self.table() =~= old(self).table().insert(id, GrabRecordView { owner: from@, seq }));
        true
    }

    /// Drop every grab held by `name` (called when that peer disconnects).
    pub fn drop_owner(&mut self, name: &str)
        ensures
            final(self).table() == without_owner(old(self).table(), name@),
    {
        let drop_clip = match &self.clipboard {
            Some(rec) => str_eq(rec.owner.as_str(), name),
            None => false,
        };
        if drop_clip {
            self.clipboard = None;
        }
        let drop_prim = match &self.primary {
            Some(rec) => str_eq(rec.owner.as_str(), name),
            None => false,
        };
        if drop_prim {
            self.primary = None;
        }
        assert(self.table() =~= without_owner(old(self).table(), name@));
    }

    /// How many clipboards currently have a recorded owner.
    pub fn tracked_count(&self) -> (r: usize)
        ensures
            r == self.table().len(),
    {
        let ghost c = opt_view(self.clipboard);
        let ghost p = opt_view(self.primary);
        proof {
            let e = Map::<ClipboardId, GrabRecordView>::empty();
            assert(e.len() == 0);
            if let Some(rc) = c {
                assert(e.insert(ClipboardId::Clipboard, rc).len() == 1);
                if let Some(rp) = p {
                    assert(!e.insert(ClipboardId::Clipboard, rc).dom().contains(ClipboardId::Primary));
                }
            }
        }
        let a: usize = match &self.clipboard {
            Some(_) => 1,
            None => 0,
        };
        let b: usize = match &self.primary {
            Some(_) => 1,
            None => 0,
        };
        a + b
    }
}

} // verus!
