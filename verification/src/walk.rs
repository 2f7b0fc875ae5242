//! Building a transfer manifest by walking a directory tree.
//!
//! The walk is depth-first from the root with an explicit stack. A
//! directory other than the root becomes a directory entry (size 0); its
//! children are visited in alphabetical order of their names; a regular
//! file becomes a file entry with its size. Every entry carries its path
//! relative to the root, `/`-separated, and the walk keeps, alongside,
//! the absolute source path of each file (an empty path for
//! directories). The file system itself is read by the caller, which
//! feeds each visited path back as a directory (with its child names) or
//! a file (with its size); anything else is skipped.

use vstd::prelude::*;

use crate::common::{FileManifest, FileManifestEntry, FileManifestEntryView, FileManifestView};
use crate::text::copy_string;
use crate::transfer::{manifest_from_entries, sum_sizes};

verus! {

broadcast use vstd::seq_lib::to_multiset_insert;

// ---- name order --------------------------------------------------------

/// Lexicographic order on names, by code point.
pub open spec fn name_lt(a: Seq<char>, b: Seq<char>) -> bool
    decreases a.len(),
{
    if a.len() == 0 {
        b.len() > 0
    } else if b.len() == 0 {
        false
    } else if a[0] != b[0] {
        (a[0] as int) < (b[0] as int)
    } else {
        name_lt(a.drop_first(), b.drop_first())
    }
}

/// The names are in ascending order.
pub open spec fn names_sorted(s: Seq<Seq<char>>) -> bool {
    forall|i: int, j: int| 0 <= i < j < s.len() ==> !name_lt(#[trigger] s[j], #[trigger] s[i])
}

/// The names are in strictly ascending order (so none repeats), as a
/// directory lists its children once each.
pub open spec fn names_strictly_sorted(s: Seq<Seq<char>>) -> bool {
    forall|i: int, j: int| 0 <= i < j < s.len() ==> name_lt(#[trigger] s[i], #[trigger] s[j])
}

/// No name is below itself.
pub proof fn lemma_name_lt_irreflexive(a: Seq<char>)
    ensures
        !name_lt(a, a),
    decreases a.len(),
{
    if a.len() > 0 {
        lemma_name_lt_irreflexive(a.drop_first());
    }
}

/// The name order is transitive.
pub proof fn lemma_name_lt_transitive(a: Seq<char>, b: Seq<char>, c: Seq<char>)
    requires
        name_lt(a, b),
        name_lt(b, c),
    ensures
        name_lt(a, c),
    decreases a.len(),
{
    if a.len() > 0 && b.len() > 0 && c.len() > 0 && a[0] == b[0] && b[0] == c[0] {
        lemma_name_lt_transitive(a.drop_first(), b.drop_first(), c.drop_first());
    }
}

/// Of two different names, one is below the other.
pub proof fn lemma_name_lt_total(a: Seq<char>, b: Seq<char>)
    ensures
        a == b || name_lt(a, b) || name_lt(b, a),
    decreases a.len(),
{
    if a.len() > 0 && b.len() > 0 && a[0] == b[0] {
        lemma_name_lt_total(a.drop_first(), b.drop_first());
        if a.drop_first() == b.drop_first() {
            assert(a =~= seq![a[0]] + a.drop_first());
            assert(b =~= seq![b[0]] + b.drop_first());
        }
    } else if a.len() == 0 && b.len() == 0 {
        assert(a =~= b);
    }
}

/// There is one ascending order of a list of distinct names: any sorted
/// arrangement of them is the strictly ascending one.
pub proof fn lemma_sorted_names_unique(s: Seq<Seq<char>>, u: Seq<Seq<char>>)
    requires
        names_sorted(s),
        names_strictly_sorted(u),
        s.to_multiset() == u.to_multiset(),
    ensures
        s == u,
    decreases s.len(),
{
    s.to_multiset_ensures();
    u.to_multiset_ensures();
    if s.len() == 0 {
        assert(u.len() == 0);
        assert(s =~= u);
    } else {
        assert(s.contains(s[0]));
        assert(u.to_multiset().count(s[0]) > 0);
        let j = choose|j: int| 0 <= j < u.len() && u[j] == s[0];
        assert(u.contains(u[0]));
        assert(s.to_multiset().count(u[0]) > 0);
        let i = choose|i: int| 0 <= i < s.len() && s[i] == u[0];
        if i != 0 && j != 0 {
            assert(name_lt(u[0], u[j]));
            assert(!name_lt(s[i], s[0]));
            assert(false);
        }
        assert(s[0] == u[0]);
        let s1 = s.drop_first();
        let u1 = u.drop_first();
        assert(s.remove(0) =~= s1);
        assert(u.remove(0) =~= u1);
        assert(s1.to_multiset() =~= u1.to_multiset());
        assert forall|a: int, b: int| 0 <= a < b < s1.len() implies !name_lt(#[trigger] s1[b], #[trigger] s1[a]) by {
            assert(s1[a] == s[a + 1] && s1[b] == s[b + 1]);
        }
        assert forall|a: int, b: int| 0 <= a < b < u1.len() implies name_lt(#[trigger] u1[a], #[trigger] u1[b]) by {
            assert(u1[a] == u[a + 1] && u1[b] == u[b + 1]);
        }
        lemma_sorted_names_unique(s1, u1);
        assert(s =~= seq![s[0]] + s1);
        assert(u =~= seq![u[0]] + u1);
    }
}

fn name_less(a: &str, b: &str) -> (r: bool)
    ensures
        r == name_lt(a@, b@),
{
    let la = a.unicode_len();
    let lb = b.unicode_len();
    let mut i: usize = 0;
    assert(a@.skip(0) =~= a@);
    assert(b@.skip(0) =~= b@);
    assert(a@.subrange(0, 0) =~= b@.subrange(0, 0));
    while i < la && i < lb
        invariant
            la == a@.len(),
            lb == b@.len(),
            i <= la,
            i <= lb,
            a@.subrange(0, i as int) == b@.subrange(0, i as int),
            name_lt(a@, b@) == name_lt(a@.skip(i as int), b@.skip(i as int)),
        decreases la - i,
    {
        let ca = a.get_char(i);
        let cb = b.get_char(i);
        let ghost sa = a@.skip(i as int);
        let ghost sb = b@.skip(i as int);
        assert(sa[0] == ca && sb[0] == cb);
        if ca != cb {
            return (ca as u32) < (cb as u32);
        }
        assert(sa.drop_first() =~= a@.skip(i + 1));
        assert(sb.drop_first() =~= b@.skip(i + 1));
        assert(a@.subrange(0, i + 1) =~= a@.subrange(0, i as int).push(ca));
        assert(b@.subrange(0, i + 1) =~= b@.subrange(0, i as int).push(cb));
        i = i + 1;
    }
    assert(a@.skip(i as int).len() == la - i);
    assert(b@.skip(i as int).len() == lb - i);
    i == la && i < lb
}

/// Names of a string list.
pub open spec fn names_of(v: Seq<String>) -> Seq<Seq<char>> {
    v.map_values(|s: String| s@)
}

/// Sort names into ascending order.
pub fn sort_names(names: Vec<String>) -> (r: Vec<String>)
    ensures
        names_of(r@).to_multiset() == names_of(names@).to_multiset(),
        names_sorted(names_of(r@)),
{
    let ghost input = names_of(names@);
    let mut rest = names;
    let mut sorted: Vec<String> = Vec::new();
    let ghost mut k: int = 0;
    assert(names_of(sorted@) =~= input.subrange(0, 0));
    assert(names_of(rest@) =~= input.subrange(0, input.len() as int));
    while rest.len() > 0
        invariant
            0 <= k <= input.len(),
            names_of(rest@) == input.subrange(k, input.len() as int),
            names_of(sorted@).to_multiset() == input.subrange(0, k).to_multiset(),
            names_sorted(names_of(sorted@)),
        decreases rest.len(),
    {
        let ghost r0 = rest@;
        assert(names_of(r0).len() == r0.len());
        assert(names_of(r0)[0] == r0[0]@);
        assert(input.subrange(k, input.len() as int)[0] == input[k]);
        let x = rest.remove(0);
        proof {
            assert(rest@ =~= r0.subrange(1, r0.len() as int));
            assert(names_of(rest@) =~= names_of(r0).subrange(1, r0.len() as int));
            assert(x@ == input[k]);
        }
        let ghost s0 = names_of(sorted@);
        let n = sorted.len();
        let mut p: usize = 0;
        while p < n && !name_less(x.as_str(), sorted[p].as_str())
            invariant
                n == sorted@.len(),
                s0 == names_of(sorted@),
                p <= n,
                forall|q: int| 0 <= q < p ==> !name_lt(x@, #[trigger] s0[q]),
            decreases n - p,
        {
            assert(s0[p as int] == sorted@[p as int]@);
            p = p + 1;
        }
        proof {
            if p < n {
                assert(s0[p as int] == sorted@[p as int]@);
                assert(name_lt(x@, s0[p as int]));
            }
        }
        sorted.insert(p, x);
        proof {
            let s1 = names_of(sorted@);
            assert(s1 =~= s0.insert(p as int, x@));
            assert forall|i: int, j: int| 0 <= i < j < s1.len() implies !name_lt(
                #[trigger] s1[j],
                #[trigger] s1[i],
            ) by {
                if i < p && j < p {
                    assert(s1[i] == s0[i] && s1[j] == s0[j]);
                } else if i < p && j == p {
                    assert(s1[i] == s0[i] && s1[j] == x@);
                    lemma_name_lt_total(x@, s0[i]);
                    if name_lt(x@, s0[i]) {
                    }
                } else if i < p && j > p {
                    assert(s1[i] == s0[i] && s1[j] == s0[j - 1]);
                } else if i == p {
                    assert(s1[i] == x@ && s1[j] == s0[j - 1]);
                    assert(name_lt(x@, s0[p as int]));
                    if j - 1 > p {
                        lemma_name_lt_total(s0[p as int], s0[j - 1]);
                        if name_lt(s0[p as int], s0[j - 1]) {
                            lemma_name_lt_transitive(x@, s0[p as int], s0[j - 1]);
                        }
                    }
                    if name_lt(s0[j - 1], x@) {
                        if j - 1 == p {
                            lemma_name_lt_transitive(x@, s0[p as int], x@);
                        } else {
                            if s0[p as int] == s0[j - 1] {
                                lemma_name_lt_transitive(x@, s0[p as int], x@);
                            } else {
                                lemma_name_lt_transitive(x@, s0[p as int], s0[j - 1]);
                                lemma_name_lt_transitive(x@, s0[j - 1], x@);
                            }
                        }
                        lemma_name_lt_irreflexive(x@);
                    }
                } else {
                    assert(s1[i] == s0[i - 1] && s1[j] == s0[j - 1]);
                }
            }
            assert(input.subrange(0, k + 1) =~= input.subrange(0, k).push(x@));
            assert(input.subrange(0, k).push(x@).to_multiset() =~= input.subrange(
                0,
                k,
            ).to_multiset().insert(x@)) by {
                vstd::seq_lib::to_multiset_build(input.subrange(0, k), x@);
            }
            k = k + 1;
            assert(names_of(rest@) =~= input.subrange(k, input.len() as int));
        }
    }
    assert(input.subrange(0, k) =~= input);
    sorted
}

// ---- the walk ----------------------------------------------------------

/// `base` joined with one more path component.
pub open spec fn join_name(base: Seq<char>, name: Seq<char>) -> Seq<char> {
    if base.len() == 0 {
        name
    } else if base.last() == '/' {
        base + name
    } else {
        base + "/"@ + name
    }
}

fn join(base: &str, name: &str) -> (r: String)
    ensures
        r@ == join_name(base@, name@),
{
    proof {
        reveal_strlit("/");
    }
    let n = base.unicode_len();
    if n == 0 {
        return name.to_owned();
    }
    let mut s = base.to_owned();
    if base.get_char(n - 1) != '/' {
        s.append("/");
    }
    s.append(name);
    s
}

/// A path still to visit: where it is, and where it goes in the manifest.
#[derive(Debug)]
pub struct WalkItem {
    /// Absolute source path.
    pub abs: String,
    /// Path relative to the root (empty for the root itself).
    pub rel: String,
}

/// Mathematical value of a [`WalkItem`].
pub struct WalkItemView {
    pub abs: Seq<char>,
    pub rel: Seq<char>,
}

impl View for WalkItem {
    type V = WalkItemView;

    open spec fn view(&self) -> WalkItemView {
        WalkItemView { abs: self.abs@, rel: self.rel@ }
    }
}

/// Views of an item list.
pub open spec fn item_views(s: Seq<WalkItem>) -> Seq<WalkItemView> {
    s.map_values(|w: WalkItem| w@)
}

/// The items for the children `names` of `parent`, in the order given.
pub open spec fn child_items(parent: WalkItemView, names: Seq<Seq<char>>) -> Seq<WalkItemView> {
    names.map_values(
        |n: Seq<char>| WalkItemView { abs: join_name(parent.abs, n), rel: join_name(parent.rel, n) },
    )
}

// ---- the walk as a whole ----------------------------------------------

/// A directory tree as the walk reads it.
pub enum FsNode {
    /// A regular file of `size` bytes.
    File { size: u64 },
    /// A directory, with each child under its name, in the order listed.
    Dir { children: Seq<(Seq<char>, FsNode)> },
    /// Anything else (a symlink, a device): skipped.
    Other,
}

/// Number of children of a directory node (0 for anything else).
pub open spec fn child_count(t: FsNode) -> nat {
    match t {
        FsNode::Dir { children } => children.len(),
        _ => 0,
    }
}

/// The names of a directory listing, in the order listed.
pub open spec fn child_names(cs: Seq<(Seq<char>, FsNode)>) -> Seq<Seq<char>> {
    cs.map_values(|c: (Seq<char>, FsNode)| c.0)
}

/// The subtrees of a directory listing, in the order listed.
pub open spec fn child_trees(cs: Seq<(Seq<char>, FsNode)>) -> Seq<FsNode> {
    cs.map_values(|c: (Seq<char>, FsNode)| c.1)
}

/// The item for the child called `name` of `parent`.
pub open spec fn child_item(parent: WalkItemView, name: Seq<char>) -> WalkItemView {
    WalkItemView { abs: join_name(parent.abs, name), rel: join_name(parent.rel, name) }
}

/// Entries and source paths of the subtree `t` reached as `item`, in
/// pre-order: a directory (other than the root) before its children,
/// the children one subtree after the other in the order listed.
pub open spec fn tree_walk(t: FsNode, item: WalkItemView) -> (Seq<FileManifestEntryView>, Seq<Seq<char>>)
    decreases t, child_count(t) + 1,
{
    match t {
        FsNode::File { size } => (
            seq![FileManifestEntryView { rel_path: item.rel, size, is_dir: false }],
            seq![item.abs],
        ),
        FsNode::Dir { children } => {
            let rest = children_walk(t, item, 0);
            if item.rel.len() > 0 {
                (
                    seq![FileManifestEntryView { rel_path: item.rel, size: 0, is_dir: true }] + rest.0,
                    seq![Seq::<char>::empty()] + rest.1,
                )
            } else {
                rest
            }
        },
        FsNode::Other => (Seq::empty(), Seq::empty()),
    }
}

/// Entries and source paths of the children of `t` from the `k`-th on.
pub open spec fn children_walk(t: FsNode, item: WalkItemView, k: int) -> (Seq<FileManifestEntryView>, Seq<Seq<char>>)
    decreases t, child_count(t) - k,
{
    match t {
        FsNode::Dir { children } => if 0 <= k < children.len() {
            let a = tree_walk(children[k].1, child_item(item, children[k].0));
            let b = children_walk(t, item, k + 1);
            (a.0 + b.0, a.1 + b.1)
        } else {
            (Seq::empty(), Seq::empty())
        },
        _ => (Seq::empty(), Seq::empty()),
    }
}

/// How many paths the walk visits in the subtree `t`.
pub open spec fn tree_steps(t: FsNode) -> nat
    decreases t, child_count(t) + 1,
{
    match t {
        FsNode::Dir { .. } => 1 + children_steps(t, 0),
        _ => 1,
    }
}

/// How many paths the walk visits under the children of `t` from the
/// `k`-th on.
pub open spec fn children_steps(t: FsNode, k: int) -> nat
    decreases t, child_count(t) - k,
{
    match t {
        FsNode::Dir { children } => if 0 <= k < children.len() {
            tree_steps(children[k].1) + children_steps(t, k + 1)
        } else {
            0
        },
        _ => 0,
    }
}

/// Mathematical value of a [`ManifestWalker`].
#[verifier::ext_equal]
pub struct WalkView {
    /// Paths still to visit; the last one is visited next.
    pub stack: Seq<WalkItemView>,
    /// Entries so far, in visiting order.
    pub entries: Seq<FileManifestEntryView>,
    /// Source path of each entry (empty for directories).
    pub sources: Seq<Seq<char>>,
}

/// A depth-first walk in progress.
#[derive(Debug)]
pub struct ManifestWalker {
    stack: Vec<WalkItem>,
    entries: Vec<FileManifestEntry>,
    sources: Vec<String>,
}

impl View for ManifestWalker {
    type V = WalkView;

    closed spec fn view(&self) -> WalkView {
        WalkView {
            stack: item_views(self.stack@),
            entries: self.entries@.map_values(|e: FileManifestEntry| e@),
            sources: names_of(self.sources@),
        }
    }
}

impl ManifestWalker {
    /// A walk about to visit `root`.
    pub fn new(root: &str) -> (w: ManifestWalker)
        ensures
            w@.stack == seq![WalkItemView { abs: root@, rel: Seq::<char>::empty() }],
            w@.entries.len() == 0,
            w@.sources.len() == 0,
    {
        let mut stack: Vec<WalkItem> = Vec::new();
        stack.push(WalkItem { abs: root.to_owned(), rel: String::new() });
        let w = ManifestWalker { stack, entries: Vec::new(), sources: Vec::new() };
        assert(w@.stack =~= seq![WalkItemView { abs: root@, rel: Seq::<char>::empty() }]);
        assert(w@.entries.len() == 0);
        w
    }

    /// The next path to visit, or `None` when the walk is over.
    pub fn next(&mut self) -> (r: Option<WalkItem>)
        ensures
            old(self)@.stack.len() == 0 ==> r is None && final(self)@ == old(self)@,
            old(self)@.stack.len() > 0 ==> (r matches Some(item) && item@ == old(self)@.stack.last()
                && final(self)@ == (WalkView { stack: old(self)@.stack.drop_last(), ..old(self)@ })),
    {
        let r = self.stack.pop();
        proof {
            if old(self)@.stack.len() > 0 {
                assert(item_views(self.stack@) =~= old(self)@.stack.drop_last());
            }
        }
        r
    }

    /// `item` is a directory whose children are called `children`: record
    /// it (unless it is the root) and visit its children next, in
    /// alphabetical order.
    pub fn visit_dir(&mut self, item: WalkItem, children: Vec<String>)
        ensures
            final(self)@.entries == (if item@.rel.len() > 0 {
                old(self)@.entries.push(
                    FileManifestEntryView { rel_path: item@.rel, size: 0, is_dir: true },
                )
            } else {
                old(self)@.entries
            }),
            final(self)@.sources == (if item@.rel.len() > 0 {
                old(self)@.sources.push(Seq::<char>::empty())
            } else {
                old(self)@.sources
            }),
            exists|sorted: Seq<Seq<char>>|
                {
                    &&& sorted.to_multiset() == names_of(children@).to_multiset()
                    &&& names_sorted(sorted)
                    &&& final(self)@.stack == old(self)@.stack + child_items(item@, sorted).reverse()
                },
            forall|names: Seq<Seq<char>>|
                names_strictly_sorted(names) && #[trigger] names.to_multiset() == names_of(
                    children@,
                ).to_multiset() ==> final(self)@ == dir_visited(old(self)@, item@, names),
    {
        let ghost iv = item@;
        if item.rel.unicode_len() > 0 {
            let ghost e0 = self@.entries;
            self.entries.push(FileManifestEntry { rel_path: copy_string(&item.rel), size: 0, is_dir: true });
            self.sources.push(String::new());
            assert(self@.entries =~= e0.push(
                FileManifestEntryView { rel_path: iv.rel, size: 0, is_dir: true },
            ));
            assert(self@.sources =~= old(self)@.sources.push(Seq::<char>::empty()));
        }
        let ghost e1 = self@.entries;
        let ghost s1 = self@.sources;
        let sorted = sort_names(children);
        let ghost sv = names_of(sorted@);
        let ghost st0 = self@.stack;
        assert(child_items(iv, sv.subrange(sv.len() as int, sv.len() as int)).reverse() =~= Seq::<WalkItemView>::empty());
        assert(st0 + Seq::<WalkItemView>::empty() =~= st0);
        let n = sorted.len();
        let mut i: usize = n;
        while i > 0
            invariant
                i <= n,
                n == sv.len(),
                sv == names_of(sorted@),
                self@.stack == st0 + child_items(iv, sv.subrange(i as int, n as int)).reverse(),
                self@.entries == e1,
                self@.sources == s1,
                iv == item@,
            decreases i,
        {
            i = i - 1;
            let abs = join(item.abs.as_str(), sorted[i].as_str());
            let rel = join(item.rel.as_str(), sorted[i].as_str());
            let ghost before = self@.stack;
            let ghost tail = child_items(iv, sv.subrange(i as int, n as int));
            let ghost tail1 = child_items(iv, sv.subrange(i + 1, n as int));
            proof {
                assert(sv[i as int] == sorted@[i as int]@);
                assert(sv.subrange(i as int, n as int)[0] == sv[i as int]);
                assert(WalkItemView { abs: abs@, rel: rel@ } == tail[0]);
                assert(tail =~= seq![tail[0]] + tail1);
                assert(tail.reverse() =~= tail1.reverse().push(tail[0]));
            }
            self.stack.push(WalkItem { abs, rel });
            proof {
                assert(item_views(self.stack@) =~= before.push(tail[0]));
            }
        }
        assert(sv.subrange(0, n as int) =~= sv);
        assert(sv.to_multiset() == names_of(children@).to_multiset() && names_sorted(sv)
            && self@.stack == st0 + child_items(iv, sv).reverse());
        assert(st0 == old(self)@.stack);
        assert forall|names: Seq<Seq<char>>|
            names_strictly_sorted(names) && #[trigger] names.to_multiset() == names_of(
                children@,
            ).to_multiset() implies self@ == dir_visited(old(self)@, iv, names) by {
            lemma_sorted_names_unique(sv, names);
        }
    }

    /// `item` is a regular file of `size` bytes: record it.
    pub fn visit_file(&mut self, item: WalkItem, size: u64)
        ensures
            final(self)@ == file_visited(old(self)@, item@, size),
    {
        let ghost iv = item@;
        self.entries.push(FileManifestEntry { rel_path: item.rel, size, is_dir: false });
        self.sources.push(item.abs);
        assert(self@.entries =~= old(self)@.entries.push(
            FileManifestEntryView { rel_path: iv.rel, size, is_dir: false },
        ));
        assert(self@.sources =~= old(self)@.sources.push(iv.abs));
    }

    /// The manifest of everything visited, with each entry's source path;
    /// `None` when the sizes do not sum within 64 bits.
    pub fn finish(self) -> (r: Option<(FileManifest, Vec<String>)>)
        ensures
            sum_sizes(self@.entries) <= u64::MAX <==> r is Some,
            r matches Some(p) ==> p.0@ == (FileManifestView {
                entries: self@.entries,
                total_bytes: sum_sizes(self@.entries) as u64,
            }) && names_of(p.1@) == self@.sources,
    {
        let ghost es = self@.entries;
        let n = self.entries.len();
        let mut total: u64 = 0;
        let mut i: usize = 0;
        while i < n
            invariant
                n == self.entries@.len(),
                es == self@.entries,
                i <= n,
                total == sum_sizes(es.subrange(0, i as int)),
            decreases n - i,
        {
            assert(es.subrange(0, i + 1).drop_last() =~= es.subrange(0, i as int));
            assert(es[i as int] == self.entries@[i as int]@);
            match total.checked_add(self.entries[i].size) {
                Some(t) => {
                    total = t;
                },
                None => {
                    proof {
                        crate::transfer::lemma_sum_prefix_le(es, i + 1);
                    }
                    return None;
                },
            }
            i = i + 1;
        }
        assert(es.subrange(0, n as int) =~= es);
        let m = manifest_from_entries(self.entries);
        Some((m, self.sources))
    }
}

/// `w` after recording the regular file `item` of `size` bytes.
pub open spec fn file_visited(w: WalkView, item: WalkItemView, size: u64) -> WalkView {
    WalkView {
        entries: w.entries.push(FileManifestEntryView { rel_path: item.rel, size, is_dir: false }),
        sources: w.sources.push(item.abs),
        ..w
    }
}

/// `w` after visiting the directory `item` whose children, in ascending
/// order, are `names`: the directory is recorded (unless it is the root)
/// and its children go on the stack, the first one on top.
pub open spec fn dir_visited(w: WalkView, item: WalkItemView, names: Seq<Seq<char>>) -> WalkView {
    let w1 = if item.rel.len() > 0 {
        WalkView {
            entries: w.entries.push(FileManifestEntryView { rel_path: item.rel, size: 0, is_dir: true }),
            sources: w.sources.push(Seq::<char>::empty()),
            ..w
        }
    } else {
        w
    };
    WalkView { stack: w1.stack + child_items(item, names).reverse(), ..w1 }
}

/// One visit of the walk driven by the trees of the paths on its stack
/// (`trees[i]` is what `w.stack[i]` names): the last path is taken (see
/// [`ManifestWalker::next`]); a file is recorded with its size and source
/// (see [`ManifestWalker::visit_file`]); a directory is visited with its
/// children in the order listed (see [`ManifestWalker::visit_dir`]);
/// anything else is skipped.
pub open spec fn walk_step(w: WalkView, trees: Seq<FsNode>) -> (WalkView, Seq<FsNode>) {
    if w.stack.len() == 0 || trees.len() == 0 {
        (w, trees)
    } else {
        let item = w.stack.last();
        let w0 = WalkView { stack: w.stack.drop_last(), ..w };
        let ts0 = trees.drop_last();
        match trees.last() {
            FsNode::File { size } => (file_visited(w0, item, size), ts0),
            FsNode::Dir { children } => (
                dir_visited(w0, item, child_names(children)),
                ts0 + child_trees(children).reverse(),
            ),
            FsNode::Other => (w0, ts0),
        }
    }
}

/// `n` visits of the driven walk.
pub open spec fn walk_run(w: WalkView, trees: Seq<FsNode>, n: nat) -> (WalkView, Seq<FsNode>)
    decreases n,
{
    if n == 0 {
        (w, trees)
    } else {
        let next = walk_step(w, trees);
        walk_run(next.0, next.1, (n - 1) as nat)
    }
}

/// Running `a` visits and then `b` more is running `a + b`.
proof fn lemma_walk_run_split(w: WalkView, trees: Seq<FsNode>, a: nat, b: nat)
    ensures
        walk_run(w, trees, a + b) == walk_run(walk_run(w, trees, a).0, walk_run(w, trees, a).1, b),
    decreases a,
{
    if a > 0 {
        let next = walk_step(w, trees);
        lemma_walk_run_split(next.0, next.1, (a - 1) as nat, b);
        assert((a + b - 1) as nat == ((a - 1) as nat + b));
    }
}

/// The walk is a pre-order traversal: once the path `item` of the
/// subtree `t` is on top of the stack, the next [`tree_steps`] visits
/// record exactly that subtree's entries and sources in pre-order (see
/// [`tree_walk`]) and leave the rest of the stack as it was.
pub proof fn lemma_walk_is_preorder(w: WalkView, trees: Seq<FsNode>, item: WalkItemView, t: FsNode)
    ensures
        walk_run(WalkView { stack: w.stack.push(item), ..w }, trees.push(t), tree_steps(t)) == (
        WalkView {
            entries: w.entries + tree_walk(t, item).0,
            sources: w.sources + tree_walk(t, item).1,
            ..w
        },
        trees),
    decreases t, child_count(t) + 1,
{
    let w_in = WalkView { stack: w.stack.push(item), ..w };
    let ts_in = trees.push(t);
    assert(w_in.stack.drop_last() =~= w.stack);
    assert(ts_in.drop_last() =~= trees);
    match t {
        FsNode::Dir { children } => {
            let next = walk_step(w_in, ts_in);
            let w1 = if item.rel.len() > 0 {
                WalkView {
                    entries: w.entries.push(FileManifestEntryView { rel_path: item.rel, size: 0, is_dir: true }),
                    sources: w.sources.push(Seq::<char>::empty()),
                    ..w
                }
            } else {
                w
            };
            let items = child_items(item, child_names(children));
            let subs = child_trees(children);
            // the first visit records the directory and stacks its children
            assert(items.subrange(0, children.len() as int) =~= items);
            assert(subs.subrange(0, children.len() as int) =~= subs);
            assert(next.0 == WalkView { stack: w1.stack + items.subrange(0, children.len() as int).reverse(), ..w1 });
            assert(next.1 == trees + subs.subrange(0, children.len() as int).reverse());
            assert(walk_run(next.0, next.1, 0) == next);
            // the remaining visits walk the children one after the other
            lemma_walk_run_split(w_in, ts_in, 1, children_steps(t, 0));
            lemma_children_preorder(w1, trees, item, t, 0);
            let cw = children_walk(t, item, 0);
            assert(w.entries + tree_walk(t, item).0 =~= w1.entries + cw.0);
            assert(w.sources + tree_walk(t, item).1 =~= w1.sources + cw.1);
        },
        _ => {
            assert(walk_run(w_in, ts_in, 1) == walk_run(walk_step(w_in, ts_in).0, walk_step(w_in, ts_in).1, 0));
        },
    }
}

/// The children of `t` from the `k`-th on, waiting on the stack with the
/// `k`-th on top, are each walked in full, one after the other.
proof fn lemma_children_preorder(w: WalkView, trees: Seq<FsNode>, item: WalkItemView, t: FsNode, k: int)
    requires
        t is Dir,
        0 <= k <= child_count(t),
    ensures
        ({
            let cs = t->Dir_children;
            let start = WalkView {
                stack: w.stack + child_items(item, child_names(cs)).subrange(k, cs.len() as int).reverse(),
                ..w
            };
            let ts = trees + child_trees(cs).subrange(k, cs.len() as int).reverse();
            walk_run(start, ts, children_steps(t, k)) == (
            WalkView {
                entries: w.entries + children_walk(t, item, k).0,
                sources: w.sources + children_walk(t, item, k).1,
                ..w
            },
            trees)
        }),
    decreases t, child_count(t) - k,
{
    let cs = t->Dir_children;
    let n = cs.len() as int;
    let items = child_items(item, child_names(cs));
    let subs = child_trees(cs);
    let start = WalkView { stack: w.stack + items.subrange(k, n).reverse(), ..w };
    let ts = trees + subs.subrange(k, n).reverse();
    if k == n {
        assert(start.stack =~= w.stack);
        assert(ts =~= trees);
        assert(w.entries + children_walk(t, item, k).0 =~= w.entries);
        assert(w.sources + children_walk(t, item, k).1 =~= w.sources);
        assert(start == w);
    } else {
        let ci = items[k];
        let ct = subs[k];
        assert(ci == child_item(item, cs[k].0));
        assert(ct == cs[k].1);
        let rest_stack = w.stack + items.subrange(k + 1, n).reverse();
        let rest_trees = trees + subs.subrange(k + 1, n).reverse();
        assert(start.stack =~= rest_stack.push(ci)) by {
            assert(items.subrange(k, n).reverse() =~= items.subrange(k + 1, n).reverse().push(ci));
        }
        assert(ts =~= rest_trees.push(ct)) by {
            assert(subs.subrange(k, n).reverse() =~= subs.subrange(k + 1, n).reverse().push(ct));
        }
        let wr = WalkView { stack: rest_stack, ..w };
        lemma_walk_is_preorder(wr, rest_trees, ci, ct);
        assert(start == WalkView { stack: wr.stack.push(ci), ..wr });
        lemma_walk_run_split(start, ts, tree_steps(ct), children_steps(t, k + 1));
        let a = tree_walk(ct, ci);
        let mid = WalkView { entries: w.entries + a.0, sources: w.sources + a.1, ..w };
        lemma_children_preorder(mid, trees, item, t, k + 1);
        let b = children_walk(t, item, k + 1);
        assert(children_walk(t, item, k) == (a.0 + b.0, a.1 + b.1));
        assert(w.entries + a.0 + b.0 =~= w.entries + (a.0 + b.0));
        assert(w.sources + a.1 + b.1 =~= w.sources + (a.1 + b.1));
        assert(children_steps(t, k) == tree_steps(ct) + children_steps(t, k + 1));
    }
}

} // verus!
