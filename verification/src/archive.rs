//! The archive scanner: decides which directories of the workspace are no
//! longer tracked and where to relocate them, without disturbing tracked
//! checkouts, nested repositories or already archived content. The walk of
//! the real directory tree and the renames happen outside the library; the
//! scanner works on a snapshot of the tree handed in as plain values.

use vstd::prelude::*;
use crate::order::lemma_char_cast_injective;

verus! {

/// `a` names a directory strictly above `d`: `a` is a proper prefix of `d`
/// that ends at a separator. The empty path is the root, above everything.
pub open spec fn is_strict_ancestor(a: Seq<char>, d: Seq<char>) -> bool {
    &&& a.len() < d.len()
    &&& d.subrange(0, a.len() as int) == a
    &&& (a.len() == 0 || d[a.len() as int] == '/')
}

/// `a` is `d` itself or a directory above it.
pub open spec fn is_path_prefix(a: Seq<char>, d: Seq<char>) -> bool {
    a == d || is_strict_ancestor(a, d)
}

/// Being an ancestor carries over prefixes: what is above `b` and what `b`
/// is above stand in line.
pub proof fn lemma_ancestor_trans(a: Seq<char>, b: Seq<char>, c: Seq<char>)
    requires
        is_path_prefix(a, b),
        is_strict_ancestor(b, c),
    ensures
        is_strict_ancestor(a, c),
{
    if a != b {
        assert(c.subrange(0, a.len() as int) =~= b.subrange(0, a.len() as int));
        assert(a.len() < b.len());
        if a.len() > 0 {
            assert(c[a.len() as int] == b[a.len() as int]);
        }
    }
}

/// Tells whether `a` names a directory strictly above `d`.
pub fn is_ancestor_path(a: &str, d: &str) -> (r: bool)
    ensures
        r == is_strict_ancestor(a@, d@),
{
    let a_len = a.unicode_len();
    let d_len = d.unicode_len();
    if a_len >= d_len {
        return false;
    }
    if a_len > 0 {
        let sep = d.get_char(a_len);
        if !((sep as u32) == ('/' as u32)) {
            return false;
        }
        proof {
            lemma_char_cast_injective(d@[a_len as int], '/');
        }
    }
    let mut i: usize = 0;
    while i < a_len
        invariant
            i <= a_len,
            a_len == a@.len(),
            d_len == d@.len(),
            a_len < d_len,
            forall|j: int| 0 <= j < i ==> a@[j] == d@[j],
        decreases a_len - i,
    {
        let ca = a.get_char(i);
        let cd = d.get_char(i);
        if !((ca as u32) == (cd as u32)) {
            proof {
                if d@.subrange(0, a@.len() as int) == a@ {
                    assert(d@.subrange(0, a@.len() as int)[i as int] == d@[i as int]);
                }
            }
            return false;
        }
        proof {
            lemma_char_cast_injective(ca, cd);
        }
        i = i + 1;
    }
    proof {
        assert(d@.subrange(0, a@.len() as int) =~= a@);
    }
    true
}

/// Joins the archive root and a workspace-relative path.
pub fn archive_destination(archive_root: &str, path: &str) -> (r: String)
    ensures
        r@ == archive_root@ + seq!['/'] + path@,
{
    let mut s = String::new();
    s.append(archive_root);
    s.append("/");
    proof {
        reveal_strlit("/");
        assert(s@ =~= archive_root@ + seq!['/']);
    }
    s.append(path);
    s
}

/// The name of the directory below the workspace root that holds archived
/// checkouts.
pub fn archive_directory_name() -> (r: &'static str)
    ensures
        r@ == ".archive"@,
{
    ".archive"
}

/// One directory of the workspace snapshot: its canonical workspace-relative
/// path, and whether it holds a git checkout (a `.git` directory).
pub struct DirEntry {
    pub path: String,
    pub has_git: bool,
}

/// The path stands in the safe set.
pub open spec fn in_safe(safe: Seq<Seq<char>>, p: Seq<char>) -> bool {
    exists|m: int| 0 <= m < safe.len() && safe[m] == p
}

/// A well-formed snapshot of the directory tree: paths are pairwise
/// distinct and every directory comes before the directories below it,
/// as a top-down walk lists them.
pub open spec fn wf_snapshot(snap: Seq<DirEntry>) -> bool {
    &&& forall|i: int, j: int|
        0 <= i < j < snap.len() ==> (#[trigger] snap[i]).path@ != (#[trigger] snap[j]).path@
    &&& forall|i: int, j: int|
        0 <= i < snap.len() && 0 <= j < snap.len()
            && is_strict_ancestor((#[trigger] snap[j]).path@, (#[trigger] snap[i]).path@)
            ==> j < i
}

/// The walk reaches this directory: no directory above it is in the safe
/// set or holds a checkout of its own.
pub open spec fn visited(snap: Seq<DirEntry>, safe: Seq<Seq<char>>, i: int) -> bool {
    forall|j: int|
        0 <= j < snap.len() && is_strict_ancestor((#[trigger] snap[j]).path@, snap[i].path@)
            ==> !in_safe(safe, snap[j].path@) && !snap[j].has_git
}

/// The walk marks this directory for archival: it is reached, it holds a
/// checkout, and it is not in the safe set.
pub open spec fn is_marked(snap: Seq<DirEntry>, safe: Seq<Seq<char>>, i: int) -> bool {
    &&& visited(snap, safe, i)
    &&& snap[i].has_git
    &&& !in_safe(safe, snap[i].path@)
}

/// The paths the walk marks among the first `i` directories, in walk order.
pub open spec fn marked_prefix(snap: Seq<DirEntry>, safe: Seq<Seq<char>>, i: int) -> Seq<
    Seq<char>,
>
    decreases i,
{
    if i <= 0 {
        Seq::empty()
    } else if is_marked(snap, safe, i - 1) {
        marked_prefix(snap, safe, i - 1).push(snap[i - 1].path@)
    } else {
        marked_prefix(snap, safe, i - 1)
    }
}

/// The paths the walk prunes among the first `i` directories: reached
/// directories that are safe or hold a checkout. The walk does not descend
/// below them.
pub open spec fn pruned_prefix(snap: Seq<DirEntry>, safe: Seq<Seq<char>>, i: int) -> Seq<
    Seq<char>,
>
    decreases i,
{
    if i <= 0 {
        Seq::empty()
    } else if visited(snap, safe, i - 1) && (in_safe(safe, snap[i - 1].path@)
        || snap[i - 1].has_git) {
        pruned_prefix(snap, safe, i - 1).push(snap[i - 1].path@)
    } else {
        pruned_prefix(snap, safe, i - 1)
    }
}

/// Each pruned path belongs to a reached directory, at or before the walk's
/// position, that is safe or holds a checkout.
proof fn lemma_pruned_elems(snap: Seq<DirEntry>, safe: Seq<Seq<char>>, i: int, m: int)
    requires
        0 <= i <= snap.len(),
        0 <= m < pruned_prefix(snap, safe, i).len(),
    ensures
        exists|j: int|
            0 <= j < i && (#[trigger] snap[j]).path@ == pruned_prefix(snap, safe, i)[m]
                && visited(snap, safe, j) && (in_safe(safe, snap[j].path@) || snap[j].has_git),
    decreases i,
{
    if i > 0 {
        if visited(snap, safe, i - 1) && (in_safe(safe, snap[i - 1].path@)
            || snap[i - 1].has_git) {
            if m < pruned_prefix(snap, safe, i - 1).len() {
                lemma_pruned_elems(snap, safe, i - 1, m);
            } else {
                assert(snap[i - 1].path@ == pruned_prefix(snap, safe, i)[m]);
            }
        } else {
            lemma_pruned_elems(snap, safe, i - 1, m);
        }
    }
}

/// A reached directory that is safe or holds a checkout has its path among
/// the pruned paths once the walk has passed it.
proof fn lemma_pruned_complete(snap: Seq<DirEntry>, safe: Seq<Seq<char>>, i: int, j: int)
    requires
        0 <= j < i <= snap.len(),
        visited(snap, safe, j),
        in_safe(safe, snap[j].path@) || snap[j].has_git,
    ensures
        exists|m: int|
            0 <= m < pruned_prefix(snap, safe, i).len() && #[trigger] pruned_prefix(
                snap,
                safe,
                i,
            )[m] == snap[j].path@,
    decreases i,
{
    if j == i - 1 {
        assert(pruned_prefix(snap, safe, i)[pruned_prefix(snap, safe, i - 1).len() as int]
            == snap[j].path@);
    } else {
        lemma_pruned_complete(snap, safe, i - 1, j);
        let m = choose|m: int|
            0 <= m < pruned_prefix(snap, safe, i - 1).len() && #[trigger] pruned_prefix(
                snap,
                safe,
                i - 1,
            )[m] == snap[j].path@;
        assert(pruned_prefix(snap, safe, i)[m] == snap[j].path@);
    }
}

/// Each marked path belongs to a marked directory before the walk's
/// position.
proof fn lemma_marked_elems(snap: Seq<DirEntry>, safe: Seq<Seq<char>>, i: int, m: int)
    requires
        0 <= i <= snap.len(),
        0 <= m < marked_prefix(snap, safe, i).len(),
    ensures
        exists|j: int|
            0 <= j < i && (#[trigger] snap[j]).path@ == marked_prefix(snap, safe, i)[m]
                && is_marked(snap, safe, j),
    decreases i,
{
    if i > 0 {
        if is_marked(snap, safe, i - 1) {
            if m < marked_prefix(snap, safe, i - 1).len() {
                lemma_marked_elems(snap, safe, i - 1, m);
            } else {
                assert(snap[i - 1].path@ == marked_prefix(snap, safe, i)[m]);
            }
        } else {
            lemma_marked_elems(snap, safe, i - 1, m);
        }
    }
}

/// The view of a batch of strings as character sequences.
pub open spec fn strings_view(s: Seq<String>) -> Seq<Seq<char>> {
    s.map_values(|x: String| x@)
}

/// A directory with an unreached or unreachable line above it has, among
/// its ancestors, a nearest one that is safe or holds a checkout and whose
/// own line is clear.
proof fn lemma_min_blocker(snap: Seq<DirEntry>, safe: Seq<Seq<char>>, p: Seq<char>, j: int)
    requires
        0 <= j < snap.len(),
        is_strict_ancestor(snap[j].path@, p),
        in_safe(safe, snap[j].path@) || snap[j].has_git,
    ensures
        exists|j0: int|
            0 <= j0 < snap.len() && is_strict_ancestor((#[trigger] snap[j0]).path@, p)
                && (in_safe(safe, snap[j0].path@) || snap[j0].has_git)
                && visited(snap, safe, j0),
    decreases snap[j].path@.len(),
{
    if visited(snap, safe, j) {
        assert(0 <= j < snap.len() && is_strict_ancestor((#[trigger] snap[j]).path@, p)
            && (in_safe(safe, snap[j].path@) || snap[j].has_git) && visited(snap, safe, j));
    } else {
        let j2 = choose|j2: int|
            0 <= j2 < snap.len() && is_strict_ancestor(
                (#[trigger] snap[j2]).path@,
                snap[j].path@,
            ) && !(!in_safe(safe, snap[j2].path@) && !snap[j2].has_git);
        lemma_ancestor_trans(snap[j2].path@, snap[j].path@, p);
        assert(snap[j2].path@.len() < snap[j].path@.len());
        lemma_min_blocker(snap, safe, p, j2);
    }
}

/// A marked directory's path stands among the marked paths once the walk
/// has passed it.
proof fn lemma_marked_complete(snap: Seq<DirEntry>, safe: Seq<Seq<char>>, i: int, j: int)
    requires
        0 <= j < i <= snap.len(),
        is_marked(snap, safe, j),
    ensures
        exists|m: int|
            0 <= m < marked_prefix(snap, safe, i).len() && #[trigger] marked_prefix(
                snap,
                safe,
                i,
            )[m] == snap[j].path@,
    decreases i,
{
    if j == i - 1 {
        assert(marked_prefix(snap, safe, i)[marked_prefix(snap, safe, i - 1).len() as int]
            == snap[j].path@);
    } else {
        lemma_marked_complete(snap, safe, i - 1, j);
        let m = choose|m: int|
            0 <= m < marked_prefix(snap, safe, i - 1).len() && #[trigger] marked_prefix(
                snap,
                safe,
                i - 1,
            )[m] == snap[j].path@;
        assert(marked_prefix(snap, safe, i)[m] == snap[j].path@);
    }
}

/// If the walk marks no directory, the marked list is empty.
proof fn lemma_marked_empty(snap: Seq<DirEntry>, safe: Seq<Seq<char>>, i: int)
    requires
        0 <= i <= snap.len(),
        forall|j: int| 0 <= j < i ==> !is_marked(snap, safe, j),
    ensures
        marked_prefix(snap, safe, i).len() == 0,
    decreases i,
{
    if i > 0 {
        lemma_marked_empty(snap, safe, i - 1);
    }
}

/// No relocated directory stands at or above this path: the path was left
/// where it was by the archival pass.
pub open spec fn untouched(snap: Seq<DirEntry>, safe: Seq<Seq<char>>, p: Seq<char>) -> bool {
    forall|m: int|
        0 <= m < marked_prefix(snap, safe, snap.len() as int).len() ==> !is_path_prefix(
            #[trigger] marked_prefix(snap, safe, snap.len() as int)[m],
            p,
        )
}

/// The directory existed before the pass, with the same checkout state.
pub open spec fn carried_over(snap: Seq<DirEntry>, e: DirEntry) -> bool {
    exists|j: int|
        0 <= j < snap.len() && (#[trigger] snap[j]).path@ == e.path@ && snap[j].has_git
            == e.has_git
}

/// Running the scanner again right after a successful pass moves nothing.
///
/// `snap` and `safe` describe the first run over a well-formed tree. The
/// second run sees a tree `snap2` in which every directory either lies at
/// or below the archive root -- which is itself listed, at `archive_idx`,
/// and in the second run's safe set `safe2` -- or is a directory the pass
/// left untouched, with its checkout state unchanged. Untouched directories
/// persist into `snap2`, and untouched safe paths stay safe. Under these
/// conditions the second walk marks nothing at all.
#[verifier::rlimit(60)]
pub proof fn lemma_archive_idempotent(
    snap: Seq<DirEntry>,
    safe: Seq<Seq<char>>,
    snap2: Seq<DirEntry>,
    safe2: Seq<Seq<char>>,
    archive: Seq<char>,
    archive_idx: int,
)
    requires
        wf_snapshot(snap),
        0 <= archive_idx < snap2.len(),
        snap2[archive_idx].path@ == archive,
        in_safe(safe2, archive),
        // untouched safe paths stay safe
        forall|m2: int|
            0 <= m2 < safe.len() && untouched(snap, safe, #[trigger] safe[m2]) ==> in_safe(
                safe2,
                safe[m2],
            ),
        // untouched directories persist, with their checkout state
        forall|j: int|
            0 <= j < snap.len() && untouched(snap, safe, (#[trigger] snap[j]).path@)
                ==> carried_over(snap2, snap[j]),
        // every directory of the new tree is under the archive root or was
        // left untouched by the pass
        forall|i2: int|
            0 <= i2 < snap2.len() ==> is_path_prefix(archive, (#[trigger] snap2[i2]).path@) || (
            carried_over(snap, snap2[i2]) && untouched(snap, safe, snap2[i2].path@)),
    ensures
        marked_prefix(snap2, safe2, snap2.len() as int).len() == 0,
{
    let n = snap.len() as int;
    let mp = marked_prefix(snap, safe, n);
    assert forall|i2: int| 0 <= i2 < snap2.len() implies !is_marked(snap2, safe2, i2) by {
        let p2 = snap2[i2].path@;
        if snap2[i2].has_git && !in_safe(safe2, p2) {
            if is_path_prefix(archive, p2) {
                if archive == p2 {
                    assert(in_safe(safe2, p2));
                } else {
                    // the archive root itself stands above this directory
                    assert(is_strict_ancestor(snap2[archive_idx].path@, p2));
                    assert(!visited(snap2, safe2, i2));
                }
            } else {
                // a directory the pass left in place, with a checkout
                let j = choose|j: int|
                    0 <= j < snap.len() && (#[trigger] snap[j]).path@ == p2 && snap[j].has_git
                        == snap2[i2].has_git;
                if is_marked(snap, safe, j) {
                    // it would have been relocated
                    lemma_marked_complete(snap, safe, n, j);
                    let m = choose|m: int|
                        0 <= m < mp.len() && #[trigger] mp[m] == snap[j].path@;
                    assert(is_path_prefix(mp[m], p2));
                    assert(false);
                } else if in_safe(safe, p2) {
                    // a safe path that stayed safe
                    let m2 = choose|m2: int| 0 <= m2 < safe.len() && #[trigger] safe[m2] == p2;
                    assert(untouched(snap, safe, safe[m2]));
                    assert(in_safe(safe2, p2));
                } else {
                    // the first walk did not reach it: some directory above
                    // it was safe or held a checkout, and the nearest such
                    // directory was reached by the first walk
                    assert(!visited(snap, safe, j));
                    let jb = choose|jb: int|
                        0 <= jb < snap.len() && is_strict_ancestor(
                            (#[trigger] snap[jb]).path@,
                            snap[j].path@,
                        ) && !(!in_safe(safe, snap[jb].path@) && !snap[jb].has_git);
                    lemma_min_blocker(snap, safe, snap[j].path@, jb);
                    let j0 = choose|j0: int|
                        0 <= j0 < snap.len() && is_strict_ancestor(
                            (#[trigger] snap[j0]).path@,
                            snap[j].path@,
                        ) && (in_safe(safe, snap[j0].path@) || snap[j0].has_git) && visited(
                            snap,
                            safe,
                            j0,
                        );
                    let p0 = snap[j0].path@;
                    // what the pass relocated lies nowhere at or above p0,
                    // else it would lie at or above this directory too
                    assert forall|m: int| 0 <= m < mp.len()
                        implies !is_path_prefix(#[trigger] mp[m], p0) by {
                        if is_path_prefix(mp[m], p0) {
                            lemma_ancestor_trans(mp[m], p0, p2);
                        }
                    }
                    if snap[j0].has_git && !in_safe(safe, p0) {
                        // the blocker was itself marked and relocated
                        lemma_marked_complete(snap, safe, n, j0);
                        let m = choose|m: int|
                            0 <= m < mp.len() && #[trigger] mp[m] == snap[j0].path@;
                        assert(is_path_prefix(mp[m], p0));
                        assert(false);
                    } else {
                        // the blocker was safe, stayed safe and persisted,
                        // so the second walk does not reach this directory
                        let m2 = choose|m2: int|
                            0 <= m2 < safe.len() && #[trigger] safe[m2] == p0;
                        assert(untouched(snap, safe, safe[m2]));
                        assert(in_safe(safe2, p0));
                        assert(untouched(snap, safe, snap[j0].path@));
                        assert(carried_over(snap2, snap[j0]));
                        let i0 = choose|i0: int|
                            0 <= i0 < snap2.len() && (#[trigger] snap2[i0]).path@
                                == snap[j0].path@ && snap2[i0].has_git == snap[j0].has_git;
                        assert(is_strict_ancestor(snap2[i0].path@, p2));
                        assert(!visited(snap2, safe2, i2));
                    }
                }
            }
        }
    }
    lemma_marked_empty(snap2, safe2, snap2.len() as int);
}

/// Finds every directory to relocate: each reached, untracked checkout,
/// paired with its destination below the archive root. The walk never
/// descends below a tracked or marked directory, so nested checkouts move
/// with their parent, and tracked and archived content stays where it is.
#[verifier::rlimit(60)]
pub fn get_all_repositories_to_archive(
    snapshot: &Vec<DirEntry>,
    safe: &Vec<String>,
    archive_root: &str,
) -> (moves: Vec<(String, String)>)
    requires
        wf_snapshot(snapshot@),
    ensures
        moves@.len() == marked_prefix(
            snapshot@,
            strings_view(safe@),
            snapshot@.len() as int,
        ).len(),
        forall|k: int|
            #![trigger moves@[k]]
            0 <= k < moves@.len() ==> moves@[k].0@ == marked_prefix(
                snapshot@,
                strings_view(safe@),
                snapshot@.len() as int,
            )[k] && moves@[k].1@ == archive_root@ + seq!['/'] + moves@[k].0@,
        // A tracked or otherwise safe directory is never relocated.
        forall|k: int, m: int|
            #![trigger moves@[k], safe@[m]]
            0 <= k < moves@.len() && 0 <= m < safe@.len() ==> moves@[k].0@ != safe@[m]@,
        // No relocated directory lies below another: a nested checkout moves
        // with its parent, never separately.
        forall|k: int, l: int|
            #![trigger moves@[k], moves@[l]]
            0 <= k < moves@.len() && 0 <= l < moves@.len() ==> !is_strict_ancestor(
                moves@[k].0@,
                moves@[l].0@,
            ),
{
    let ghost sv = strings_view(safe@);
    let mut moves: Vec<(String, String)> = Vec::new();
    let mut pruned: Vec<String> = Vec::new();
    let mut i: usize = 0;
    while i < snapshot.len()
        invariant
            wf_snapshot(snapshot@),
            i <= snapshot@.len(),
            sv == strings_view(safe@),
            strings_view(pruned@) == pruned_prefix(snapshot@, sv, i as int),
            moves@.len() == marked_prefix(snapshot@, sv, i as int).len(),
            forall|k: int|
                #![trigger moves@[k]]
                0 <= k < moves@.len() ==> moves@[k].0@ == marked_prefix(snapshot@, sv, i as int)[k]
                    && moves@[k].1@ == archive_root@ + seq!['/'] + moves@[k].0@,
        decreases snapshot@.len() - i,
    {
        let ghost pp = pruned_prefix(snapshot@, sv, i as int);
        let ghost mp = marked_prefix(snapshot@, sv, i as int);
        // Does the walk reach this directory at all?
        let mut skipped = false;
        let mut m: usize = 0;
        while m < pruned.len()
            invariant
                m <= pruned@.len(),
                i < snapshot@.len(),
                strings_view(pruned@) == pp,
                skipped <==> exists|m2: int|
                    0 <= m2 < m && is_strict_ancestor(
                        #[trigger] pruned@[m2]@,
                        snapshot@[i as int].path@,
                    ),
            decreases pruned@.len() - m,
        {
            if is_ancestor_path(pruned[m].as_str(), snapshot[i].path.as_str()) {
                skipped = true;
                proof {
                    assert(is_strict_ancestor(pruned@[m as int]@, snapshot@[i as int].path@));
                }
            }
            m = m + 1;
        }
        proof {
            assert forall|m2: int| 0 <= m2 < pruned@.len()
                implies (#[trigger] pruned@[m2])@ == pp[m2] by {
                assert(strings_view(pruned@)[m2] == pruned@[m2]@);
            }
            if skipped {
                // A pruned directory stands above this one, so the walk did
                // not reach it.
                let m2 = choose|m2: int|
                    0 <= m2 < pruned@.len() && is_strict_ancestor(
                        #[trigger] pruned@[m2]@,
                        snapshot@[i as int].path@,
                    );
                lemma_pruned_elems(snapshot@, sv, i as int, m2);
                let j = choose|j: int|
                    0 <= j < i && (#[trigger] snapshot@[j]).path@ == pp[m2]
                        && visited(snapshot@, sv, j) && (in_safe(sv, snapshot@[j].path@)
                        || snapshot@[j].has_git);
                assert(!visited(snapshot@, sv, i as int));
            } else {
                // Nothing pruned stands above it, so nothing safe or marked
                // does: the walk reaches it.
                if !visited(snapshot@, sv, i as int) {
                    let j = choose|j: int|
                        0 <= j < snapshot@.len() && is_strict_ancestor(
                            (#[trigger] snapshot@[j]).path@,
                            snapshot@[i as int].path@,
                        ) && !(!in_safe(sv, snapshot@[j].path@) && !snapshot@[j].has_git);
                    lemma_min_blocker(snapshot@, sv, snapshot@[i as int].path@, j);
                    let j0 = choose|j0: int|
                        0 <= j0 < snapshot@.len() && is_strict_ancestor(
                            (#[trigger] snapshot@[j0]).path@,
                            snapshot@[i as int].path@,
                        ) && (in_safe(sv, snapshot@[j0].path@) || snapshot@[j0].has_git)
                            && visited(snapshot@, sv, j0);
                    lemma_pruned_complete(snapshot@, sv, i as int, j0);
                    let m2 = choose|m2: int|
                        0 <= m2 < pp.len() && #[trigger] pp[m2] == snapshot@[j0].path@;
                    assert(is_strict_ancestor(pruned@[m2]@, snapshot@[i as int].path@));
                    assert(false);
                }
            }
        }
        if !skipped {
            // Is this directory in the safe set?
            let mut safe_hit = false;
            let mut m: usize = 0;
            while m < safe.len()
                invariant
                    m <= safe@.len(),
                    i < snapshot@.len(),
                    sv == strings_view(safe@),
                    safe_hit <==> exists|m2: int|
                        0 <= m2 < m && (#[trigger] safe@[m2])@ == snapshot@[i as int].path@,
                decreases safe@.len() - m,
            {
                if safe[m] == snapshot[i].path {
                    safe_hit = true;
                    proof {
                        assert((safe@[m as int])@ == snapshot@[i as int].path@);
                    }
                }
                m = m + 1;
            }
            proof {
                assert forall|m2: int| 0 <= m2 < safe@.len()
                    implies (#[trigger] safe@[m2])@ == sv[m2] by {
                    assert(strings_view(safe@)[m2] == safe@[m2]@);
                }
                if safe_hit {
                    let m2 = choose|m2: int|
                        0 <= m2 < safe@.len() && (#[trigger] safe@[m2])@
                            == snapshot@[i as int].path@;
                    assert(sv[m2] == snapshot@[i as int].path@);
                    assert(in_safe(sv, snapshot@[i as int].path@));
                } else {
                    if in_safe(sv, snapshot@[i as int].path@) {
                        let m2 = choose|m2: int|
                            0 <= m2 < sv.len() && #[trigger] sv[m2]
                                == snapshot@[i as int].path@;
                        assert(safe@[m2]@ == snapshot@[i as int].path@);
                        assert(false);
                    }
                }
            }
            if safe_hit {
                let ghost oldpruned = pruned@;
                pruned.push(snapshot[i].path.clone());
                proof {
                    assert(strings_view(pruned@) =~= strings_view(oldpruned).push(
                        snapshot@[i as int].path@,
                    ));
                }
            } else if snapshot[i].has_git {
                let from = snapshot[i].path.clone();
                let to = archive_destination(archive_root, snapshot[i].path.as_str());
                moves.push((from, to));
                let ghost oldpruned = pruned@;
                pruned.push(snapshot[i].path.clone());
                proof {
                    assert(is_marked(snapshot@, sv, i as int));
                    assert(strings_view(pruned@) =~= strings_view(oldpruned).push(
                        snapshot@[i as int].path@,
                    ));
                    assert(marked_prefix(snapshot@, sv, i + 1) =~= mp.push(
                        snapshot@[i as int].path@,
                    ));
                }
            } else {
                proof {
                    assert(pruned_prefix(snapshot@, sv, i + 1) =~= pp);
                    assert(marked_prefix(snapshot@, sv, i + 1) =~= mp);
                }
            }
        } else {
            proof {
                assert(pruned_prefix(snapshot@, sv, i + 1) =~= pp);
                assert(marked_prefix(snapshot@, sv, i + 1) =~= mp);
            }
        }
        i = i + 1;
    }
    proof {
        let n = snapshot@.len() as int;
        // A safe directory is never marked, and no marked directory stands
        // above another.
        assert forall|k: int, m: int|
            0 <= k < moves@.len() && 0 <= m < safe@.len()
            implies (#[trigger] moves@[k]).0@ != (#[trigger] safe@[m])@ by {
            lemma_marked_elems(snapshot@, sv, n, k);
            let j = choose|j: int|
                0 <= j < n && (#[trigger] snapshot@[j]).path@ == marked_prefix(snapshot@, sv, n)[k]
                    && is_marked(snapshot@, sv, j);
            if moves@[k].0@ == safe@[m]@ {
                assert(strings_view(safe@)[m] == safe@[m]@);
                assert(in_safe(sv, snapshot@[j].path@));
                assert(false);
            }
        }
        assert forall|k: int, l: int|
            0 <= k < moves@.len() && 0 <= l < moves@.len()
            implies !is_strict_ancestor((#[trigger] moves@[k]).0@, (#[trigger] moves@[l]).0@) by {
            lemma_marked_elems(snapshot@, sv, n, k);
            lemma_marked_elems(snapshot@, sv, n, l);
            let j1 = choose|j1: int|
                0 <= j1 < n && (#[trigger] snapshot@[j1]).path@ == marked_prefix(
                    snapshot@,
                    sv,
                    n,
                )[k] && is_marked(snapshot@, sv, j1);
            let j2 = choose|j2: int|
                0 <= j2 < n && (#[trigger] snapshot@[j2]).path@ == marked_prefix(
                    snapshot@,
                    sv,
                    n,
                )[l] && is_marked(snapshot@, sv, j2);
            if is_strict_ancestor(moves@[k].0@, moves@[l].0@) {
                assert(is_strict_ancestor(snapshot@[j1].path@, snapshot@[j2].path@));
                assert(!snapshot@[j1].has_git);
                assert(false);
            }
        }
    }
    moves
}

/// Tests that a snapshot is well formed, so that the scanner may run on
/// it: paths pairwise distinct, parents listed before their children.
pub fn check_snapshot(snapshot: &Vec<DirEntry>) -> (r: bool)
    ensures
        r == wf_snapshot(snapshot@),
{
    let n = snapshot.len();
    let mut i: usize = 0;
    while i < n
        invariant
            n == snapshot@.len(),
            i <= n,
            forall|a: int, b: int|
                0 <= a < n && 0 <= b < n && a < i ==> ((a < b ==> (#[trigger] snapshot@[a]).path@
                    != (#[trigger] snapshot@[b]).path@) && (is_strict_ancestor(
                    snapshot@[b].path@,
                    snapshot@[a].path@,
                ) ==> b < a)),
        decreases n - i,
    {
        let mut j: usize = 0;
        while j < n
            invariant
                n == snapshot@.len(),
                i < n,
                j <= n,
                forall|b: int|
                    0 <= b < j ==> ((i < b ==> (#[trigger] snapshot@[i as int]).path@
                        != snapshot@[b].path@) && (is_strict_ancestor(
                        (#[trigger] snapshot@[b]).path@,
                        snapshot@[i as int].path@,
                    ) ==> b < i)),
            decreases n - j,
        {
            if i < j && str_eq_paths(snapshot[i].path.as_str(), snapshot[j].path.as_str()) {
                return false;
            }
            if j >= i && is_ancestor_path(snapshot[j].path.as_str(), snapshot[i].path.as_str()) {
                return false;
            }
            j = j + 1;
        }
        i = i + 1;
    }
    true
}

/// Tells whether two paths are the same.
fn str_eq_paths(a: &str, b: &str) -> (r: bool)
    ensures
        r == (a@ == b@),
{
    let c = crate::order::str_compare(a, b);
    proof {
        crate::order::lemma_lex_cmp_eq(a@, b@);
    }
    c == 0
}

} // verus!