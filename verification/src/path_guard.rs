//! Path traversal and absolute-path guard for incoming manifests.
//!
//! A relative path is read as its components: the pieces between
//! slashes, where empty pieces (repeated or trailing slashes) and `.`
//! pieces are no-ops, `..` climbs to the parent, a leading slash names
//! the root, and a leading drive letter with a colon (`C:`) names a
//! Windows drive, which is refused too. Any other character, a
//! backslash included, is part of a name.

use vstd::prelude::*;

use crate::text::{str_eq, string_push};
use crate::transfer::TransferError;

verus! {

/// The path separator.
pub open spec fn is_sep(c: char) -> bool {
    c == '/'
}

/// A Windows drive prefix: an ASCII letter followed by a colon.
pub open spec fn has_drive_prefix(p: Seq<char>) -> bool {
    &&& p.len() >= 2
    &&& (('a' <= p[0] && p[0] <= 'z') || ('A' <= p[0] && p[0] <= 'Z'))
    &&& p[1] == ':'
}

/// The pieces of `p` between separators, empty ones included, in order.
pub open spec fn split_components(p: Seq<char>) -> Seq<Seq<char>>
    decreases p.len(),
{
    if p.len() == 0 {
        seq![Seq::empty()]
    } else {
        let r = split_components(p.drop_last());
        if is_sep(p.last()) {
            r.push(Seq::empty())
        } else {
            r.update(r.len() - 1, r.last().push(p.last()))
        }
    }
}

/// A piece that names a directory entry (not empty, `.` or `..`).
pub open spec fn is_normal(piece: Seq<char>) -> bool {
    piece != Seq::<char>::empty() && piece != seq!['.'] && piece != seq!['.', '.']
}

/// `base` with `seg` appended as one more component.
pub open spec fn push_component(base: Seq<char>, seg: Seq<char>) -> Seq<char> {
    if base.len() == 0 || base.last() == '/' {
        base + seg
    } else {
        base.push('/') + seg
    }
}

/// `base` with every normal piece of `pieces` appended, in order.
pub open spec fn join_normals(base: Seq<char>, pieces: Seq<Seq<char>>) -> Seq<char>
    decreases pieces.len(),
{
    if pieces.len() == 0 {
        base
    } else {
        let b = join_normals(base, pieces.drop_last());
        if is_normal(pieces.last()) {
            push_component(b, pieces.last())
        } else {
            b
        }
    }
}

/// Does `rel` stay strictly inside the directory it is joined to: no
/// root, no drive prefix, no parent step, at least one named component?
pub open spec fn stays_inside(rel: Seq<char>) -> bool {
    &&& !(rel.len() > 0 && is_sep(rel[0]))
    &&& !has_drive_prefix(rel)
    &&& forall|i: int| 0 <= i < split_components(rel).len() ==> #[trigger] split_components(rel)[i] != seq![
        '.',
        '.',
    ]
    &&& exists|i: int| 0 <= i < split_components(rel).len() && is_normal(#[trigger] split_components(rel)[i])
}

/// The location of `rel` under `base`.
pub open spec fn joined(base: Seq<char>, rel: Seq<char>) -> Seq<char> {
    join_normals(base, split_components(rel))
}

/// Is `c` the path separator (see [`is_sep`])?
fn is_sep_char(c: char) -> (r: bool)
    ensures
        r == is_sep(c),
{
    c == '/'
}

/// Is `c` an ASCII letter?
fn is_ascii_letter(c: char) -> (r: bool)
    ensures
        r == (('a' <= c && c <= 'z') || ('A' <= c && c <= 'Z')),
{
    ('a' <= c && c <= 'z') || ('A' <= c && c <= 'Z')
}

/// Append `seg` to `out` as one more path component.
pub fn push_path(out: &mut String, seg: &str)
    ensures
        final(out)@ == push_component(old(out)@, seg@),
{
    let n = out.unicode_len();
    if n > 0 && out.as_str().get_char(n - 1) != '/' {
        string_push(out, '/');
    }
    out.append(seg);
}

/// Handle one finished piece: `Err` for a parent step; otherwise whether
/// it is a named component, which is then appended to `out`.
fn take_piece(cur: &String, out: &mut String) -> (r: Result<bool, ()>)
    ensures
        r is Err <==> cur@ == seq!['.', '.'],
        r is Err ==> final(out)@ == old(out)@,
        r matches Ok(b) ==> b == is_normal(cur@) && final(out)@ == (if b {
            push_component(old(out)@, cur@)
        } else {
            old(out)@
        }),
{
    proof {
        reveal_strlit(".");
        reveal_strlit("..");
    }
    if str_eq(cur.as_str(), "..") {
        assert(cur@ =~= seq!['.', '.']);
        return Err(());
    }
    assert(cur@ != seq!['.', '.']) by {
        if cur@ == seq!['.', '.'] {
            assert(cur@ =~= ".."@);
        }
    }
    let is_cur = str_eq(cur.as_str(), ".");
    let is_empty = cur.unicode_len() == 0;
    assert(is_cur == (cur@ == seq!['.'])) by {
        if cur@ == seq!['.'] {
            assert(cur@ =~= "."@);
        }
        if is_cur {
            assert(cur@ =~= seq!['.']);
        }
    }
    assert(is_empty == (cur@ == Seq::<char>::empty())) by {
        if is_empty {
            assert(cur@ =~= Seq::<char>::empty());
        }
    }
    if !is_cur && !is_empty {
        push_path(out, cur.as_str());
        Ok(true)
    } else {
        Ok(false)
    }
}

/// `done` with one more piece: the bookkeeping of the scan.
proof fn lemma_piece_done(done: Seq<Seq<char>>, piece: Seq<char>, saw_normal: bool, b: bool)
    requires
        forall|k: int| 0 <= k < done.len() ==> #[trigger] done[k] != seq!['.', '.'],
        saw_normal == exists|k: int| 0 <= k < done.len() && is_normal(#[trigger] done[k]),
        piece != seq!['.', '.'],
        b == is_normal(piece),
    ensures
        forall|k: int| 0 <= k < done.push(piece).len() ==> #[trigger] done.push(piece)[k] != seq![
            '.',
            '.',
        ],
        (saw_normal || b) == exists|k: int|
            0 <= k < done.push(piece).len() && is_normal(#[trigger] done.push(piece)[k]),
        done.push(piece).drop_last() == done,
        done.push(piece).last() == piece,
{
    let d = done.push(piece);
    assert(d.drop_last() =~= done);
    assert forall|k: int| 0 <= k < d.len() implies #[trigger] d[k] != seq!['.', '.'] by {
        if k < done.len() {
            assert(d[k] == done[k]);
        }
    }
    if saw_normal {
        let k = choose|k: int| 0 <= k < done.len() && is_normal(#[trigger] done[k]);
        assert(d[k] == done[k]);
    } else if b {
        assert(is_normal(d[done.len() as int]));
    } else {
        assert forall|k: int| 0 <= k < d.len() implies !is_normal(#[trigger] d[k]) by {
            if k < done.len() {
                assert(d[k] == done[k]);
            }
        }
    }
}

/// Join `staging` and `rel_path`, refusing any `rel_path` that would not
/// name a location strictly inside `staging` (a leading separator, a
/// drive prefix such as `C:`, a `..` component, or no named component at
/// all).
pub fn validate_rel_path(staging: &str, rel_path: &str) -> (r: Result<String, TransferError>)
    ensures
        stays_inside(rel_path@) <==> r is Ok,
        r matches Ok(s) ==> s@ == joined(staging@, rel_path@),
        r matches Err(e) ==> e matches TransferError::PathTraversal { rel_path: p } && p@
            == rel_path@,
{
    let n = rel_path.unicode_len();
    let ghost p = rel_path@;
    if n > 0 && is_sep_char(rel_path.get_char(0)) {
        return Err(TransferError::PathTraversal { rel_path: rel_path.to_owned() });
    }
    if n >= 2 && is_ascii_letter(rel_path.get_char(0)) && rel_path.get_char(1) == ':' {
        return Err(TransferError::PathTraversal { rel_path: rel_path.to_owned() });
    }
    let mut out = staging.to_owned();
    let mut cur = String::new();
    let mut saw_normal = false;
    let mut i: usize = 0;
    let ghost mut done: Seq<Seq<char>> = Seq::empty();
    assert(p.subrange(0, 0) =~= Seq::<char>::empty());
    assert(split_components(p.subrange(0, 0)) =~= done.push(cur@));
    while i < n
        invariant
            n == p.len(),
            rel_path@ == p,
            i <= n,
            split_components(p.subrange(0, i as int)) == done.push(cur@),
            out@ == join_normals(staging@, done),
            forall|k: int| 0 <= k < done.len() ==> #[trigger] done[k] != seq!['.', '.'],
            saw_normal == exists|k: int| 0 <= k < done.len() && is_normal(#[trigger] done[k]),
        decreases n - i,
    {
        let c = rel_path.get_char(i);
        assert(p.subrange(0, i + 1).drop_last() =~= p.subrange(0, i as int));
        assert(p.subrange(0, i + 1).last() == c);
        if is_sep_char(c) {
            let ghost piece = cur@;
            match take_piece(&cur, &mut out) {
                Err(()) => {
                    proof {
                        assert(split_components(p.subrange(0, i + 1)) == done.push(piece).push(Seq::empty()));
                        lemma_parent_in_prefix_blocks(p, i as int + 1, done.len() as int);
                    }
                    return Err(TransferError::PathTraversal { rel_path: rel_path.to_owned() });
                },
                Ok(b) => {
                    proof {
                        lemma_piece_done(done, piece, saw_normal, b);
                        done = done.push(piece);
                    }
                    saw_normal = saw_normal || b;
                },
            }
            cur = String::new();
            assert(split_components(p.subrange(0, i + 1)) =~= done.push(cur@));
        } else {
            let ghost before = cur@;
            string_push(&mut cur, c);
            assert(done.push(before).update(done.len() as int, before.push(c)) =~= done.push(cur@));
        }
        i = i + 1;
    }
    assert(p.subrange(0, n as int) =~= p);
    let ghost piece = cur@;
    match take_piece(&cur, &mut out) {
        Err(()) => {
            proof {
                assert(split_components(p)[done.len() as int] == piece);
            }
            return Err(TransferError::PathTraversal { rel_path: rel_path.to_owned() });
        },
        Ok(b) => {
            proof {
                lemma_piece_done(done, piece, saw_normal, b);
                done = done.push(piece);
            }
            saw_normal = saw_normal || b;
        },
    }
    assert(split_components(p) == done);
    if !saw_normal {
        return Err(TransferError::PathTraversal { rel_path: rel_path.to_owned() });
    }
    Ok(out)
}

/// Once a prefix of the path holds a `..` piece, so does the whole path.
proof fn lemma_parent_in_prefix_blocks(p: Seq<char>, j: int, k: int)
    requires
        0 <= j <= p.len(),
        0 <= k < split_components(p.subrange(0, j)).len(),
        split_components(p.subrange(0, j))[k] == seq!['.', '.'],
        k < split_components(p.subrange(0, j)).len() - 1,
    ensures
        !stays_inside(p),
    decreases p.len() - j,
{
    if j == p.len() {
        assert(p.subrange(0, j) =~= p);
    } else {
        let q = p.subrange(0, j + 1);
        assert(q.drop_last() =~= p.subrange(0, j));
        lemma_parent_in_prefix_blocks(p, j + 1, k);
    }
}

/// Appending normal pieces only ever extends the base, and makes it
/// longer as soon as one piece is normal.
proof fn lemma_join_normals_extends(base: Seq<char>, pieces: Seq<Seq<char>>)
    ensures
        join_normals(base, pieces).len() >= base.len(),
        join_normals(base, pieces).subrange(0, base.len() as int) == base,
        (exists|i: int| 0 <= i < pieces.len() && is_normal(#[trigger] pieces[i])) ==> join_normals(
            base,
            pieces,
        ).len() > base.len(),
    decreases pieces.len(),
{
    if pieces.len() > 0 {
        let init = pieces.drop_last();
        lemma_join_normals_extends(base, init);
        let b = join_normals(base, init);
        let last = pieces.last();
        if is_normal(last) {
            let j = push_component(b, last);
            assert(last.len() > 0) by {
                if last.len() == 0 {
                    assert(last =~= Seq::<char>::empty());
                }
            }
            assert(j.subrange(0, b.len() as int) =~= b);
            assert(j.subrange(0, base.len() as int) =~= b.subrange(0, base.len() as int));
        } else {
            if exists|i: int| 0 <= i < pieces.len() && is_normal(#[trigger] pieces[i]) {
                let i = choose|i: int| 0 <= i < pieces.len() && is_normal(#[trigger] pieces[i]);
                assert(i < pieces.len() - 1);
                assert(init[i] == pieces[i]);
            }
        }
    } else {
        assert(base.subrange(0, base.len() as int) =~= base);
    }
}

/// A path the guard accepts lands strictly inside the directory it is
/// joined to: the result extends that directory's path by at least one
/// named component (and, by the guard, never by a parent step).
pub proof fn lemma_accepted_path_is_inside(base: Seq<char>, rel: Seq<char>)
    requires
        stays_inside(rel),
    ensures
        joined(base, rel).len() > base.len(),
        joined(base, rel).subrange(0, base.len() as int) == base,
{
    lemma_join_normals_extends(base, split_components(rel));
}

} // verus!
