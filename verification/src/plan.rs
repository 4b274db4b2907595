//! Decisions over gathered facts: which changed paths qualify for
//! repair, how the working-tree scan partitions its paths, and which
//! commits of a range a rewrite must cover.

use vstd::prelude::*;
use crate::introduced_terminator;
use crate::added_eof_newline;
use crate::text::{bytes_eq, views_of};

verus! {

/// One changed path with the content on either side of the change;
/// absent content marks a side that could not be read (missing at its
/// ref, or over the size ceiling) and never qualifies.
pub struct ChangedPath {
    pub path: Vec<u8>,
    pub old_content: Option<Vec<u8>>,
    pub new_content: Option<Vec<u8>>,
}

impl ChangedPath {
    /// Both sides were read and the change introduced a trailing
    /// terminator.
    pub open spec fn qualifies(&self) -> bool {
        match (self.old_content, self.new_content) {
            (Some(o), Some(n)) => introduced_terminator(o@, n@),
            _ => false,
        }
    }
}

/// The paths of the qualifying changes, in order.
pub open spec fn fix_list(changes: Seq<ChangedPath>) -> Seq<Seq<u8>>
    decreases changes.len(),
{
    if changes.len() == 0 {
        Seq::<Seq<u8>>::empty()
    } else {
        let p = fix_list(changes.drop_last());
        if changes.last().qualifies() {
            p.push(changes.last().path@)
        } else {
            p
        }
    }
}

proof fn lemma_fix_list_prefix(changes: Seq<ChangedPath>, k: int)
    requires
        0 <= k <= changes.len(),
    ensures
        fix_list(changes).len() >= fix_list(changes.take(k)).len(),
    decreases changes.len(),
{
    if changes.len() > k {
        lemma_fix_list_prefix(changes.drop_last(), k);
        assert(changes.drop_last().take(k) =~= changes.take(k));
    } else {
        assert(changes.take(k) =~= changes);
    }
}

/// The paths whose change introduced a trailing terminator, in order.
pub fn paths_needing_fix(changes: &Vec<ChangedPath>) -> (r: Vec<Vec<u8>>)
    ensures
        views_of(r@) == fix_list(changes@),
{
    let mut r: Vec<Vec<u8>> = Vec::new();
    let mut i: usize = 0;
    proof {
        assert(changes@.take(0) =~= Seq::<ChangedPath>::empty());
        assert(views_of(r@) =~= fix_list(changes@.take(0)));
    }
    while i < changes.len()
        invariant
            i <= changes@.len(),
            views_of(r@) == fix_list(changes@.take(i as int)),
        decreases changes@.len() - i,
    {
        proof {
            assert(changes@.take(i + 1).drop_last() =~= changes@.take(i as int));
            assert(changes@.take(i + 1).last() == changes@[i as int]);
        }
        let c = &changes[i];
        let ghost prev_r = r@;
        let qualifies = match (&c.old_content, &c.new_content) {
            (Some(o), Some(n)) => added_eof_newline(o.as_slice(), n.as_slice()),
            _ => false,
        };
        if qualifies {
            r.push(c.path.clone());
            proof {
                assert(views_of(r@) =~= views_of(prev_r).push(changes@[i as int].path@));
            }
        }
        i = i + 1;
    }
    proof {
        assert(changes@.take(changes@.len() as int) =~= changes@);
    }
    r
}

/// Whether any changed path of a commit qualifies for repair.
pub fn commit_has_added_eof_newline(changes: &Vec<ChangedPath>) -> (r: bool)
    ensures
        r == (fix_list(changes@).len() > 0),
{
    let mut i: usize = 0;
    proof {
        assert(changes@.take(0) =~= Seq::<ChangedPath>::empty());
    }
    while i < changes.len()
        invariant
            i <= changes@.len(),
            fix_list(changes@.take(i as int)).len() == 0,
        decreases changes@.len() - i,
    {
        proof {
            assert(changes@.take(i + 1).drop_last() =~= changes@.take(i as int));
            assert(changes@.take(i + 1).last() == changes@[i as int]);
        }
        let c = &changes[i];
        let qualifies = match (&c.old_content, &c.new_content) {
            (Some(o), Some(n)) => added_eof_newline(o.as_slice(), n.as_slice()),
            _ => false,
        };
        if qualifies {
            proof {
                lemma_fix_list_prefix(changes@, i + 1);
            }
            return true;
        }
        i = i + 1;
    }
    proof {
        assert(changes@.take(changes@.len() as int) =~= changes@);
    }
    false
}

/// The elements of `xs` that occur in `ys`, in the order of `xs`.
pub open spec fn kept_in(xs: Seq<Seq<u8>>, ys: Seq<Seq<u8>>) -> Seq<Seq<u8>>
    decreases xs.len(),
{
    if xs.len() == 0 {
        Seq::<Seq<u8>>::empty()
    } else {
        let p = kept_in(xs.drop_last(), ys);
        if ys.contains(xs.last()) {
            p.push(xs.last())
        } else {
            p
        }
    }
}

/// The elements of `xs` that do not occur in `ys`, in the order of `xs`.
pub open spec fn kept_out(xs: Seq<Seq<u8>>, ys: Seq<Seq<u8>>) -> Seq<Seq<u8>>
    decreases xs.len(),
{
    if xs.len() == 0 {
        Seq::<Seq<u8>>::empty()
    } else {
        let p = kept_out(xs.drop_last(), ys);
        if !ys.contains(xs.last()) {
            p.push(xs.last())
        } else {
            p
        }
    }
}

/// A path changed on both sides is always among the partially-staged
/// paths of the scan and on neither repair list: it is skipped, never
/// repaired on an ambiguous side.
pub proof fn lemma_partially_staged_is_skipped(us: Seq<Seq<u8>>, ss: Seq<Seq<u8>>, p: Seq<u8>)
    requires
        us.contains(p),
        ss.contains(p),
    ensures
        kept_in(us, ss).contains(p),
        !kept_out(us, ss).contains(p),
        !kept_out(ss, us).contains(p),
{
    lemma_kept_in_keeps(us, ss, p);
    lemma_kept_out_drops(us, ss, p);
    lemma_kept_out_drops(ss, us, p);
}

proof fn lemma_kept_in_keeps(xs: Seq<Seq<u8>>, ys: Seq<Seq<u8>>, p: Seq<u8>)
    requires
        xs.contains(p),
        ys.contains(p),
    ensures
        kept_in(xs, ys).contains(p),
    decreases xs.len(),
{
    if xs.len() > 0 {
        if xs.last() == p {
            assert(kept_in(xs, ys).last() == p);
        } else {
            let i = choose|i: int| 0 <= i < xs.len() && xs[i] == p;
            assert(xs.drop_last()[i] == p);
            lemma_kept_in_keeps(xs.drop_last(), ys, p);
            let j = choose|j: int| 0 <= j < kept_in(xs.drop_last(), ys).len() && kept_in(
                xs.drop_last(),
                ys,
            )[j] == p;
            assert(kept_in(xs, ys)[j] == p);
        }
    }
}

proof fn lemma_kept_out_drops(xs: Seq<Seq<u8>>, ys: Seq<Seq<u8>>, p: Seq<u8>)
    requires
        ys.contains(p),
    ensures
        !kept_out(xs, ys).contains(p),
    decreases xs.len(),
{
    if xs.len() > 0 {
        lemma_kept_out_drops(xs.drop_last(), ys, p);
        if !ys.contains(xs.last()) {
            assert forall|j: int| 0 <= j < kept_out(xs, ys).len() implies kept_out(xs, ys)[j]
                != p by {
                if j < kept_out(xs.drop_last(), ys).len() {
                    assert(kept_out(xs, ys)[j] == kept_out(xs.drop_last(), ys)[j]);
                }
            }
        }
    }
}

/// Whether a path occurs in a path listing.
pub fn list_contains(xs: &Vec<Vec<u8>>, p: &[u8]) -> (r: bool)
    ensures
        r == views_of(xs@).contains(p@),
{
    let mut i: usize = 0;
    while i < xs.len()
        invariant
            i <= xs@.len(),
            forall|k: int| 0 <= k < i ==> views_of(xs@)[k] != p@,
        decreases xs@.len() - i,
    {
        if bytes_eq(xs[i].as_slice(), p) {
            assert(views_of(xs@)[i as int] == p@);
            return true;
        }
        i = i + 1;
    }
    false
}

/// How the working-tree scan partitions the changed paths: paths
/// changed on both sides are ambiguous and only reported; the rest are
/// examined against the committed content on the one side they changed.
pub struct WorktreePlan {
    /// Changed both unstaged and staged: skipped with a diagnostic.
    pub partially_staged: Vec<Vec<u8>>,
    /// Changed in the working tree alone.
    pub worktree_only: Vec<Vec<u8>>,
    /// Changed in the staging area alone.
    pub index_only: Vec<Vec<u8>>,
}

/// Partitions the unstaged and staged path listings: a path in both is
/// partially staged and skipped, never repaired on an ambiguous side;
/// the others keep their listing's order.
pub fn plan_worktree_scan(unstaged: &Vec<Vec<u8>>, staged: &Vec<Vec<u8>>) -> (r: WorktreePlan)
    ensures
        views_of(r.partially_staged@) == kept_in(views_of(unstaged@), views_of(staged@)),
        views_of(r.worktree_only@) == kept_out(views_of(unstaged@), views_of(staged@)),
        views_of(r.index_only@) == kept_out(views_of(staged@), views_of(unstaged@)),
{
    let mut partially_staged: Vec<Vec<u8>> = Vec::new();
    let mut worktree_only: Vec<Vec<u8>> = Vec::new();
    let ghost us = views_of(unstaged@);
    let ghost ss = views_of(staged@);
    let mut i: usize = 0;
    proof {
        assert(us.take(0) =~= Seq::<Seq<u8>>::empty());
        assert(views_of(partially_staged@) =~= kept_in(us.take(0), ss));
        assert(views_of(worktree_only@) =~= kept_out(us.take(0), ss));
    }
    while i < unstaged.len()
        invariant
            i <= unstaged@.len(),
            us == views_of(unstaged@),
            ss == views_of(staged@),
            views_of(partially_staged@) == kept_in(us.take(i as int), ss),
            views_of(worktree_only@) == kept_out(us.take(i as int), ss),
        decreases unstaged@.len() - i,
    {
        proof {
            assert(us.take(i + 1).drop_last() =~= us.take(i as int));
            assert(us.take(i + 1).last() == unstaged@[i as int]@);
        }
        let ghost prev_p = partially_staged@;
        let ghost prev_w = worktree_only@;
        if list_contains(staged, unstaged[i].as_slice()) {
            partially_staged.push(unstaged[i].clone());
            proof {
                assert(views_of(partially_staged@) =~= views_of(prev_p).push(unstaged@[i as int]@));
            }
        } else {
            worktree_only.push(unstaged[i].clone());
            proof {
                assert(views_of(worktree_only@) =~= views_of(prev_w).push(unstaged@[i as int]@));
            }
        }
        i = i + 1;
    }
    proof {
        assert(us.take(us.len() as int) =~= us);
    }
    let mut index_only: Vec<Vec<u8>> = Vec::new();
    let mut j: usize = 0;
    proof {
        assert(ss.take(0) =~= Seq::<Seq<u8>>::empty());
        assert(views_of(index_only@) =~= kept_out(ss.take(0), us));
    }
    while j < staged.len()
        invariant
            j <= staged@.len(),
            us == views_of(unstaged@),
            ss == views_of(staged@),
            views_of(index_only@) == kept_out(ss.take(j as int), us),
        decreases staged@.len() - j,
    {
        proof {
            assert(ss.take(j + 1).drop_last() =~= ss.take(j as int));
            assert(ss.take(j + 1).last() == staged@[j as int]@);
        }
        let ghost prev_x = index_only@;
        if !list_contains(unstaged, staged[j].as_slice()) {
            index_only.push(staged[j].clone());
            proof {
                assert(views_of(index_only@) =~= views_of(prev_x).push(staged@[j as int]@));
            }
        }
        j = j + 1;
    }
    proof {
        assert(ss.take(ss.len() as int) =~= ss);
    }
    WorktreePlan { partially_staged, worktree_only, index_only }
}

/// One commit of a requested range, with what the scan learned of it:
/// whether its author passed the filter and whether any of its changes
/// qualifies for repair.
pub struct CommitScan {
    pub id: Vec<u8>,
    pub author_matched: bool,
    pub needs_fix: bool,
}

/// The ids of the commits a rewrite must cover: author-matched and in
/// need of repair, in the order given.
pub open spec fn offenders(scans: Seq<CommitScan>) -> Seq<Seq<u8>>
    decreases scans.len(),
{
    if scans.len() == 0 {
        Seq::<Seq<u8>>::empty()
    } else {
        let p = offenders(scans.drop_last());
        if scans.last().author_matched && scans.last().needs_fix {
            p.push(scans.last().id@)
        } else {
            p
        }
    }
}

/// A scan listing without offenders holds no commit that is both
/// author-matched and in need of repair.
proof fn lemma_no_offenders(scans: Seq<CommitScan>)
    requires
        offenders(scans).len() == 0,
    ensures
        forall|j: int|
            0 <= j < scans.len() ==> !((#[trigger] scans[j]).author_matched
                && scans[j].needs_fix),
    decreases scans.len(),
{
    if scans.len() > 0 {
        lemma_no_offenders(scans.drop_last());
        assert forall|j: int|
            0 <= j < scans.len() implies !((#[trigger] scans[j]).author_matched
            && scans[j].needs_fix) by {
            if j < scans.len() - 1 {
                assert(scans.drop_last()[j] == scans[j]);
            }
        }
    }
}

/// The head of a non-empty rewrite list is the earliest offender: it is
/// the id of an author-matched commit in need of repair before which no
/// scanned commit offends. With the scans oldest first, a range based
/// at that commit's first parent therefore covers every offender.
pub proof fn lemma_first_target_is_earliest_offender(scans: Seq<CommitScan>)
    requires
        offenders(scans).len() > 0,
    ensures
        exists|k: int|
            0 <= k < scans.len() && (#[trigger] scans[k]).author_matched && scans[k].needs_fix
                && offenders(scans)[0] == scans[k].id@ && (forall|j: int|
                0 <= j < k ==> !((#[trigger] scans[j]).author_matched && scans[j].needs_fix)),
    decreases scans.len(),
{
    let p = offenders(scans.drop_last());
    if p.len() > 0 {
        lemma_first_target_is_earliest_offender(scans.drop_last());
        let k = choose|k: int|
            0 <= k < scans.drop_last().len() && (#[trigger] scans.drop_last()[k]).author_matched
                && scans.drop_last()[k].needs_fix && p[0] == scans.drop_last()[k].id@ && (
            forall|j: int|
                0 <= j < k ==> !((#[trigger] scans.drop_last()[j]).author_matched
                    && scans.drop_last()[j].needs_fix));
        assert(scans.drop_last()[k] == scans[k]);
        assert(offenders(scans)[0] == p[0]);
        assert forall|j: int| 0 <= j < k implies !((#[trigger] scans[j]).author_matched
            && scans[j].needs_fix) by {
            assert(scans.drop_last()[j] == scans[j]);
        }
        assert(0 <= k < scans.len() && (scans[k]).author_matched && scans[k].needs_fix
            && offenders(scans)[0] == scans[k].id@ && (forall|j: int|
            0 <= j < k ==> !((#[trigger] scans[j]).author_matched && scans[j].needs_fix)));
    } else {
        let k = scans.len() - 1;
        assert(scans.last().author_matched && scans.last().needs_fix);
        assert(offenders(scans) == p.push(scans.last().id@));
        assert(offenders(scans)[0] == scans[k].id@);
        lemma_no_offenders(scans.drop_last());
        assert forall|j: int| 0 <= j < k implies !((#[trigger] scans[j]).author_matched
            && scans[j].needs_fix) by {
            assert(scans.drop_last()[j] == scans[j]);
        }
        assert(0 <= k < scans.len() && (scans[k]).author_matched && scans[k].needs_fix
            && offenders(scans)[0] == scans[k].id@ && (forall|j: int|
            0 <= j < k ==> !((#[trigger] scans[j]).author_matched && scans[j].needs_fix)));
    }
}

/// Selects the commits a rewrite must cover, keeping the given order;
/// with the scans oldest first, the first id returned is the oldest
/// offender, whose first parent is the rewrite base — so the rewritten
/// range covers every offender, and covers nothing when no commit
/// offends.
pub fn commits_to_rewrite(scans: &Vec<CommitScan>) -> (r: Vec<Vec<u8>>)
    ensures
        views_of(r@) == offenders(scans@),
{
    let mut r: Vec<Vec<u8>> = Vec::new();
    let mut i: usize = 0;
    proof {
        assert(scans@.take(0) =~= Seq::<CommitScan>::empty());
        assert(views_of(r@) =~= offenders(scans@.take(0)));
    }
    while i < scans.len()
        invariant
            i <= scans@.len(),
            views_of(r@) == offenders(scans@.take(i as int)),
        decreases scans@.len() - i,
    {
        proof {
            assert(scans@.take(i + 1).drop_last() =~= scans@.take(i as int));
            assert(scans@.take(i + 1).last() == scans@[i as int]);
        }
        let ghost prev_r = r@;
        if scans[i].author_matched && scans[i].needs_fix {
            r.push(scans[i].id.clone());
            proof {
                assert(views_of(r@) =~= views_of(prev_r).push(scans@[i as int].id@));
            }
        }
        i = i + 1;
    }
    proof {
        assert(scans@.take(scans@.len() as int) =~= scans@);
    }
    r
}

} // verus!
