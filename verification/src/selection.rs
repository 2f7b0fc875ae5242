//! X11 selection bookkeeping for the clipboard worker.
//!
//! The worker owns selections on behalf of peers: a write stores the
//! payload under `(selection, target)` and claims ownership; a
//! `SelectionRequest` from another application is answered from that
//! store (the `TARGETS` query lists what is on offer for the selection).
//! Reads ask the current owner to convert the selection into one of the
//! two targets this backend speaks: `UTF8_STRING` for text and
//! `text/html` for HTML. Atoms are plain 32-bit identifiers handed out by
//! the X server.

use vstd::prelude::*;

use crate::common::{copy_bytes, ClipboardFormat, ClipboardId};
use crate::platform::PlatformError;

verus! {

/// The X11 "no atom" / "no property" value.
pub const NONE_ATOM: u32 = 0;

/// Atoms the clipboard worker uses, interned once at startup.
#[derive(Debug, Clone, Copy, PartialEq, Eq, Structural)]
pub struct Atoms {
    /// `CLIPBOARD`.
    pub clipboard: u32,
    /// `PRIMARY`.
    pub primary: u32,
    /// `UTF8_STRING`.
    pub utf8_string: u32,
    /// `text/html`.
    pub html: u32,
    /// `TARGETS`.
    pub targets: u32,
    /// The property replies are written to.
    pub reply_prop: u32,
    /// The message type used to wake the event reader at shutdown.
    pub wakeup: u32,
}

/// The selection atom of a clipboard.
pub open spec fn selection_of(a: Atoms, id: ClipboardId) -> u32 {
    match id {
        ClipboardId::Clipboard => a.clipboard,
        ClipboardId::Primary => a.primary,
    }
}

/// The target atom of a format, for the formats this backend speaks.
pub open spec fn target_of(a: Atoms, format: ClipboardFormat) -> Option<u32> {
    match format {
        ClipboardFormat::Text => Some(a.utf8_string),
        ClipboardFormat::Html => Some(a.html),
        _ => None,
    }
}

impl Atoms {
    /// The selection atom of a clipboard.
    pub fn selection_atom(&self, id: ClipboardId) -> (r: u32)
        ensures
            r == selection_of(*self, id),
    {
        match id {
            ClipboardId::Clipboard => self.clipboard,
            ClipboardId::Primary => self.primary,
        }
    }

    /// The target atom of a format; `None` for formats this backend does
    /// not speak.
    pub fn format_target(&self, format: ClipboardFormat) -> (r: Option<u32>)
        ensures
            r == target_of(*self, format),
    {
        match format {
            ClipboardFormat::Text => Some(self.utf8_string),
            ClipboardFormat::Html => Some(self.html),
            _ => None,
        }
    }

    /// The `(selection, target)` to ask the owner for, or `None` when the
    /// format is not spoken here (the read then yields empty data).
    pub fn read_request(&self, id: ClipboardId, format: ClipboardFormat) -> (r: Option<(u32, u32)>)
        ensures
            r == (match target_of(*self, format) {
                Some(t) => Some((selection_of(*self, id), t)),
                None => None,
            }),
    {
        match self.format_target(format) {
            Some(t) => Some((self.selection_atom(id), t)),
            None => None,
        }
    }
}

/// One owned payload.
#[derive(Debug)]
struct OwnedEntry {
    selection: u32,
    target: u32,
    data: Vec<u8>,
}

/// Key of an entry.
spec fn key_of(e: OwnedEntry) -> (u32, u32) {
    (e.selection, e.target)
}

/// Is `k` the key of some entry of `s`?
spec fn has_key(s: Seq<OwnedEntry>, k: (u32, u32)) -> bool {
    exists|i: int| 0 <= i < s.len() && key_of(#[trigger] s[i]) == k
}

/// No two entries share a key.
spec fn keys_unique(s: Seq<OwnedEntry>) -> bool {
    forall|i: int, j: int| 0 <= i < j < s.len() ==> key_of(#[trigger] s[i]) != key_of(#[trigger] s[j])
}

/// The payloads of `s` by key.
spec fn store_map(s: Seq<OwnedEntry>) -> Map<(u32, u32), Seq<u8>> {
    Map::new(
        |k: (u32, u32)| has_key(s, k),
        |k: (u32, u32)| s[choose|i: int| 0 <= i < s.len() && key_of(#[trigger] s[i]) == k].data@,
    )
}

/// In-memory store of owned selections: `(selection, target) -> bytes`.
#[derive(Debug)]
pub struct OwnedStore {
    entries: Vec<OwnedEntry>,
}

impl View for OwnedStore {
    type V = Map<(u32, u32), Seq<u8>>;

    closed spec fn view(&self) -> Map<(u32, u32), Seq<u8>> {
        store_map(self.entries@)
    }
}

/// With unique keys, the entry at `i` is the one the map reads for its key.
proof fn lemma_store_at(s: Seq<OwnedEntry>, i: int)
    requires
        keys_unique(s),
        0 <= i < s.len(),
    ensures
        store_map(s).contains_key(key_of(s[i])),
        store_map(s)[key_of(s[i])] == s[i].data@,
{
    let k = key_of(s[i]);
    assert(has_key(s, k));
    let j = choose|j: int| 0 <= j < s.len() && key_of(#[trigger] s[j]) == k;
    if j < i {
        assert(key_of(s[j]) != key_of(s[i]));
    } else if i < j {
        assert(key_of(s[i]) != key_of(s[j]));
    }
}

impl OwnedStore {
    #[verifier::type_invariant]
    spec fn inv(self) -> bool {
        keys_unique(self.entries@)
    }

    /// An empty store.
    pub fn new() -> (s: OwnedStore)
        ensures
            s@ == Map::<(u32, u32), Seq<u8>>::empty(),
    {
        let s = OwnedStore { entries: Vec::new() };
        assert(s@ =~= Map::<(u32, u32), Seq<u8>>::empty());
        s
    }

    fn find(&self, selection: u32, target: u32) -> (r: Option<usize>)
        ensures
            match r {
                Some(i) => i < self.entries@.len() && key_of(self.entries@[i as int]) == (
                    selection,
                    target,
                ),
                None => !has_key(self.entries@, (selection, target)),
            },
    {
        let n = self.entries.len();
        let mut i: usize = 0;
        while i < n
            invariant
                n == self.entries@.len(),
                i <= n,
                forall|j: int| 0 <= j < i ==> key_of(#[trigger] self.entries@[j]) != (selection, target),
            decreases n - i,
        {
            if self.entries[i].selection == selection && self.entries[i].target == target {
                return Some(i);
            }
            i = i + 1;
        }
        None
    }

    /// Serve `data` for `(selection, target)` from now on, replacing any
    /// earlier payload under that key.
    pub fn set(&mut self, selection: u32, target: u32, data: Vec<u8>)
        ensures
            final(self)@ == old(self)@.insert((selection, target), data@),
    {
        proof {
            use_type_invariant(&*self);
        }
        let ghost s0 = self.entries@;
        let ghost k = (selection, target);
        let ghost d = data@;
        let found = self.find(selection, target);
        let e = OwnedEntry { selection, target, data };
        match found {
            Some(i) => {
                let ghost s1 = s0.update(i as int, e);
                assert(keys_unique(s1)) by {
                    assert forall|a: int, b: int| 0 <= a < b < s1.len() implies key_of(
                        #[trigger] s1[a],
                    ) != key_of(#[trigger] s1[b]) by {
                        assert(key_of(s1[a]) == key_of(s0[a]));
                        assert(key_of(s1[b]) == key_of(s0[b]));
                    }
                }
                proof {
                    assert forall|q: (u32, u32)| has_key(s1, q) == (q == k || has_key(s0, q)) by {
                        if has_key(s0, q) {
                            let j = choose|j: int| 0 <= j < s0.len() && key_of(#[trigger] s0[j]) == q;
                            assert(key_of(s1[j]) == q);
                        }
                        if has_key(s1, q) {
                            let j = choose|j: int| 0 <= j < s1.len() && key_of(#[trigger] s1[j]) == q;
                            assert(key_of(s0[j]) == q);
                        }
                        if q == k {
                            assert(key_of(s1[i as int]) == q);
                        }
                    }
                    assert forall|q: (u32, u32)| #[trigger] has_key(s1, q) implies store_map(s1)[q]
                        == store_map(s0).insert(k, d)[q] by {
                        let j = choose|j: int| 0 <= j < s1.len() && key_of(#[trigger] s1[j]) == q;
                        lemma_store_at(s1, j);
                        if q != k {
                            lemma_store_at(s0, j);
                        }
                    }
                    assert(store_map(s1) =~= store_map(s0).insert(k, d));
                }
                let mut entries: Vec<OwnedEntry> = Vec::new();
                std::mem::swap(&mut entries, &mut self.entries);
                entries.set(i, e);
                self.entries = entries;
            },
            None => {
                let ghost s1 = s0.push(e);
                assert(keys_unique(s1)) by {
                    assert forall|a: int, b: int| 0 <= a < b < s1.len() implies key_of(
                        #[trigger] s1[a],
                    ) != key_of(#[trigger] s1[b]) by {
                        if b == s0.len() {
                            assert(s1[a] == s0[a]);
                        } else {
                            assert(s1[a] == s0[a] && s1[b] == s0[b]);
                        }
                    }
                }
                proof {
                    assert forall|q: (u32, u32)| has_key(s1, q) == (q == k || has_key(s0, q)) by {
                        if has_key(s0, q) {
                            let j = choose|j: int| 0 <= j < s0.len() && key_of(#[trigger] s0[j]) == q;
                            assert(s1[j] == s0[j]);
                        }
                        if has_key(s1, q) {
                            let j = choose|j: int| 0 <= j < s1.len() && key_of(#[trigger] s1[j]) == q;
                            if j < s0.len() {
                                assert(s1[j] == s0[j]);
                            }
                        }
                        if q == k {
                            assert(key_of(s1[s0.len() as int]) == q);
                        }
                    }
                    assert forall|q: (u32, u32)| #[trigger] has_key(s1, q) implies store_map(s1)[q]
                        == store_map(s0).insert(k, d)[q] by {
                        let j = choose|j: int| 0 <= j < s1.len() && key_of(#[trigger] s1[j]) == q;
                        lemma_store_at(s1, j);
                        if q != k {
                            assert(s1[j] == s0[j]);
                            lemma_store_at(s0, j);
                        }
                    }
                    assert(store_map(s1) =~= store_map(s0).insert(k, d));
                }
                let mut entries: Vec<OwnedEntry> = Vec::new();
                std::mem::swap(&mut entries, &mut self.entries);
                entries.push(e);
                self.entries = entries;
            },
        }
    }

    /// The payload served for `(selection, target)`, if any.
    pub fn get(&self, selection: u32, target: u32) -> (r: Option<&Vec<u8>>)
        ensures
            match r {
                Some(d) => self@.contains_key((selection, target)) && self@[(selection, target)]
                    == d@,
                None => !self@.contains_key((selection, target)),
            },
    {
        proof {
            use_type_invariant(self);
        }
        match self.find(selection, target) {
            Some(i) => {
                proof {
                    lemma_store_at(self.entries@, i as int);
                }
                Some(&self.entries[i].data)
            },
            None => None,
        }
    }

    /// Every target on offer for `selection`, each once (in no promised
    /// order).
    pub fn targets_for(&self, selection: u32) -> (r: Vec<u32>)
        ensures
            r@.no_duplicates(),
            forall|t: u32| r@.contains(t) <==> self@.contains_key((selection, t)),
    {
        proof {
            use_type_invariant(self);
        }
        let ghost s = self.entries@;
        let mut r: Vec<u32> = Vec::new();
        let n = self.entries.len();
        let mut i: usize = 0;
        while i < n
            invariant
                n == s.len(),
                s == self.entries@,
                keys_unique(s),
                i <= n,
                r@.no_duplicates(),
                forall|t: u32|
                    r@.contains(t) <==> exists|j: int|
                        0 <= j < i && key_of(#[trigger] s[j]) == (selection, t),
            decreases n - i,
        {
            if self.entries[i].selection == selection {
                let t = self.entries[i].target;
                assert(!r@.contains(t)) by {
                    if r@.contains(t) {
                        let j = choose|j: int| 0 <= j < i && key_of(#[trigger] s[j]) == (selection, t);
                        assert(key_of(s[j]) != key_of(s[i as int]));
                    }
                }
                let ghost before = r@;
                r.push(t);
                assert forall|u: u32| r@.contains(u) <==> exists|j: int|
                    0 <= j < i + 1 && key_of(#[trigger] s[j]) == (selection, u) by {
                    if u == t {
                        assert(r@[before.len() as int] == u);
                        assert(key_of(s[i as int]) == (selection, u));
                    } else if r@.contains(u) {
                        let p = choose|p: int| 0 <= p < r@.len() && r@[p] == u;
                        assert(before[p] == u);
                        assert(before.contains(u));
                    } else if exists|j: int| 0 <= j < i + 1 && key_of(#[trigger] s[j]) == (selection, u) {
                        let j = choose|j: int| 0 <= j < i + 1 && key_of(#[trigger] s[j]) == (selection, u);
                        assert(j != i);
                        assert(before.contains(u));
                        let p = choose|p: int| 0 <= p < before.len() && before[p] == u;
                        assert(r@[p] == u);
                    }
                }
            } else {
                assert forall|u: u32| r@.contains(u) <==> exists|j: int|
                    0 <= j < i + 1 && key_of(#[trigger] s[j]) == (selection, u) by {
                    if exists|j: int| 0 <= j < i + 1 && key_of(#[trigger] s[j]) == (selection, u) {
                        let j = choose|j: int| 0 <= j < i + 1 && key_of(#[trigger] s[j]) == (selection, u);
                        assert(j != i);
                    }
                }
            }
            i = i + 1;
        }
        r
    }
}

/// How to answer another application's `SelectionRequest`.
#[derive(Debug)]
pub enum SelectionAnswer {
    /// Write these atoms (`ATOM[]`) to `property`, then notify with `property`.
    Targets { property: u32, targets: Vec<u32> },
    /// Write these bytes (typed as the requested target) to `property`,
    /// then notify with `property`.
    Data { property: u32, data: Vec<u8> },
    /// Notify with no property: the request cannot be satisfied.
    Refuse,
}

/// The property a reply goes to: the requested one, or the target itself
/// when the requestor named none.
pub open spec fn reply_property(target: u32, property: u32) -> u32 {
    if property == NONE_ATOM {
        target
    } else {
        property
    }
}

/// Answer a request for `selection` converted to `target` into
/// `property`: a `TARGETS` query lists what is on offer for the
/// selection; a target we hold data for gets that data; anything else is
/// refused.
pub fn answer_selection_request(
    atoms: &Atoms,
    owned: &OwnedStore,
    selection: u32,
    target: u32,
    property: u32,
) -> (r: SelectionAnswer)
    ensures
        target == atoms.targets ==> (r matches SelectionAnswer::Targets { property: p, targets }
            && p == reply_property(target, property) && targets@.no_duplicates() && forall|t: u32|
            targets@.contains(t) <==> owned@.contains_key((selection, t))),
        target != atoms.targets && owned@.contains_key((selection, target)) ==> (r
            matches SelectionAnswer::Data { property: p, data } && p == reply_property(target, property)
            && data@ == owned@[(selection, target)]),
        target != atoms.targets && !owned@.contains_key((selection, target)) ==> r is Refuse,
{
    let reply = if property == NONE_ATOM {
        target
    } else {
        property
    };
    if target == atoms.targets {
        SelectionAnswer::Targets { property: reply, targets: owned.targets_for(selection) }
    } else {
        match owned.get(selection, target) {
            Some(data) => SelectionAnswer::Data { property: reply, data: copy_bytes(data) },
            None => SelectionAnswer::Refuse,
        }
    }
}

/// Store a payload written to clipboard `id` in `format`, to be served
/// once the worker owns the selection. Returns the selection to claim;
/// a format this backend does not speak is refused and nothing is stored.
pub fn store_selection(
    atoms: &Atoms,
    owned: &mut OwnedStore,
    id: ClipboardId,
    format: ClipboardFormat,
    data: Vec<u8>,
) -> (r: Result<u32, PlatformError>)
    ensures
        match target_of(*atoms, format) {
            Some(t) => r == Ok::<u32, PlatformError>(selection_of(*atoms, id)) && final(owned)@
                == old(owned)@.insert((selection_of(*atoms, id), t), data@),
            None => r == Err::<u32, PlatformError>(PlatformError::UnsupportedFormat { format })
                && final(owned)@ == old(owned)@,
        },
{
    match atoms.format_target(format) {
        Some(target) => {
            let selection = atoms.selection_atom(id);
            owned.set(selection, target, data);
            Ok(selection)
        },
        None => Err(PlatformError::UnsupportedFormat { format }),
    }
}

/// What one application reads back after another stored data: the data
/// of the last write for that selection and target.
pub proof fn lemma_read_back_last_write(
    m: Map<(u32, u32), Seq<u8>>,
    sel: u32,
    t: u32,
    d: Seq<u8>,
    sel2: u32,
    t2: u32,
)
    ensures
        m.insert((sel, t), d).contains_key((sel, t)),
        m.insert((sel, t), d)[(sel, t)] == d,
        (sel2, t2) != (sel, t) ==> m.insert((sel, t), d).contains_key((sel2, t2)) == m.contains_key(
            (sel2, t2),
        ),
{
}

} // verus!
