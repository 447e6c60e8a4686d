//! The scheduler's decisions, free of threads and clocks: how the root's
//! children are partitioned into worker territories, which node a worker
//! should expand next in each phase, and one bounded unit of work — expand
//! one frontier node and publish the replacement subtree. A driver (or a
//! thread pool around this library) loops these under its own budget.
use vstd::prelude::*;

use crate::score::Eval;
use crate::tree::{loc_valid, node_at, prio_ok, sap, surface_hit, Branch};

verus! {

/// The child a territory slot holds: slot `k` of group `g`.
pub open spec fn slot_child(g: int, k: int, groups: int) -> int {
    g + k * groups
}

/// Round-robin partition of the root's children into worker territories:
/// group `g` holds exactly the children `g`, `g + groups`, `g + 2·groups`,
/// and so on, so every child sits in precisely one group, in enumeration
/// order within it.
pub fn divide_base(n_children: usize, n_workers: usize) -> (r: Vec<Vec<usize>>)
    requires
        n_workers >= 1,
    ensures
        r@.len() == if n_children < n_workers {
            n_children as int
        } else {
            n_workers as int
        },
        forall|g: int, k: int|
            0 <= g < r@.len() && 0 <= k < r@[g]@.len() ==> #[trigger] r@[g]@[k] == slot_child(
                g,
                k,
                r@.len() as int,
            ) && r@[g]@[k] < n_children,
        forall|g: int, k: int|
            0 <= g < r@.len() && 0 <= k && #[trigger] slot_child(g, k, r@.len() as int)
                < n_children ==> k < r@[g]@.len(),
{

    let groups = if n_children < n_workers {
        n_children
    } else {
        n_workers
    };
    let mut r: Vec<Vec<usize>> = Vec::new();
    let mut g: usize = 0;
    while g < groups
        invariant
            0 <= g <= groups,
            groups <= n_children,
            r@.len() == g,
            forall|x: int, k: int|
                0 <= x < g && 0 <= k < r@[x]@.len() ==> #[trigger] r@[x]@[k] == slot_child(
                    x,
                    k,
                    groups as int,
                ) && r@[x]@[k] < n_children,
            forall|x: int|
                0 <= x < g ==> x + (#[trigger] r@[x])@.len() * groups >= n_children,
        decreases groups - g,
    {
        let mut group: Vec<usize> = Vec::new();
        let mut v: u128 = g as u128;
        while v < n_children as u128
            invariant
                1 <= groups <= n_children,
                g < groups,
                v == g as int + group@.len() * groups as int,
                forall|k: int|
                    0 <= k < group@.len() ==> #[trigger] group@[k] == slot_child(
                        g as int,
                        k,
                        groups as int,
                    ) && group@[k] < n_children,
            decreases n_children as int + groups as int - v,
        {
            let ghost len0 = group@.len() as int;
            group.push(v as usize);
            proof {
                assert((len0 + 1) * (groups as int) == len0 * (groups as int) + groups as int)
                    by (nonlinear_arith);
            }
            v = v + groups as u128;
        }
        r.push(group);
        g += 1;
    }
    proof {
        assert forall|gq: int, k: int|
            0 <= gq < r@.len() && 0 <= k && #[trigger] slot_child(gq, k, r@.len() as int)
                < n_children implies k < r@[gq]@.len() by {
            assert(gq + r@[gq]@.len() * groups >= n_children);
            assert(k < r@[gq]@.len()) by (nonlinear_arith)
                requires
                    gq + k * (groups as int) < n_children as int,
                    gq + r@[gq]@.len() * (groups as int) >= n_children as int,
                    groups >= 1,
                    k >= 0,
            ;
        }
    }
    r
}

/// The wide phase's next job under a territory slot: the first frontier
/// leaf within eleven levels of the node at `relative_location`.
pub fn get_next_wide(tree: &Branch, relative_location: &Vec<usize>) -> (r: Option<Vec<usize>>)
    requires
        loc_valid(tree@, relative_location@),
    ensures
        match r {
            Some(l) => surface_hit(
                node_at(tree@, relative_location@),
                relative_location@,
                l@,
            ),
            None => !node_at(tree@, relative_location@).is_terminal,
        },
{
    let branch = tree.find_branch(relative_location.as_slice());
    branch.find_surface_terminal(relative_location)
}

/// The deep phase's next job under a territory slot: the frontier leaf of
/// greatest priority in the subtree at `worker_base_location`.
pub fn get_next_deep(tree: &Branch, worker_base_location: &Vec<usize>) -> (r: (Eval, Vec<usize>))
    requires
        loc_valid(tree@, worker_base_location@),
        prio_ok(node_at(tree@, worker_base_location@)),
    ensures
        r.0 == sap(node_at(tree@, worker_base_location@), worker_base_location@).0,
        r.1@ == sap(node_at(tree@, worker_base_location@), worker_base_location@).1,
{
    let branch = tree.find_branch(worker_base_location.as_slice());
    branch.search_absolute_priority(worker_base_location.as_slice())
}

/// Walks the location in the running tree; `true` when it addresses a node.
pub fn check_location(tree: &Branch, location: &[usize]) -> (r: bool)
    ensures
        r == loc_valid(tree@, location@),
{
    let mut node = tree;
    let mut k: usize = 0;
    proof {
        assert(location@.skip(0) == location@);
    }
    while k < location.len()
        invariant
            k <= location@.len(),
            loc_valid(tree@, location@) == loc_valid(node@, location@.skip(k as int)),
        decreases location@.len() - k,
    {
        broadcast use crate::tree::lemma_bview_children;

        let i = location[k];
        if i >= node.children.len() {
            return false;
        }
        proof {
            assert(location@.skip(k as int)[0] == location@[k as int]);
            assert(location@.skip(k as int).drop_first() =~= location@.skip(k as int + 1));
            crate::tree::lemma_child_view(node, i as int);
        }
        node = &node.children[i];
        k += 1;
    }
    proof {
        assert(location@.skip(k as int).len() == 0);
    }
    true
}

/// A location the scheduler may hand a worker: it addresses a node within
/// the search's depth bound whose position, and whose children's positions,
/// the engine can work on.
pub open spec fn expandable(v: crate::tree::BranchView, loc: Seq<usize>) -> bool {
    &&& loc_valid(v, loc)
    &&& loc.len() < crate::priority::MAX_SEARCH_DEPTH
    &&& node_at(v, loc).board.playable()
    &&& forall|j: int|
        0 <= j < node_at(v, loc).children.len() ==> (#[trigger] node_at(
            v,
            loc,
        ).children[j]).board.playable()
}

/// One unit of work, as a worker performs it: take the node at `location`,
/// expand each of its children one ply, and publish the replacement
/// subtree at the same location. It succeeds exactly on expandable
/// locations; on success the node at `location` has been expanded one ply
/// and nothing outside `location` is altered; a lost or unusable location
/// is reported and leaves the tree untouched.
pub fn expand_unit(tree: &mut Branch, location: &[usize]) -> (r: bool)
    ensures
        r == expandable(old(tree)@, location@),
        !r ==> final(tree)@ == old(tree)@,
        r ==> crate::tree::expanded_one_ply(
            node_at(old(tree)@, location@),
            node_at(final(tree)@, location@),
            location@.len() as usize,
        ),
        forall|l: Seq<usize>|
            crate::tree::loc_disjoint(location@, l) && loc_valid(old(tree)@, l) ==> loc_valid(
                final(tree)@,
                l,
            ) && #[trigger] node_at(final(tree)@, l) == node_at(old(tree)@, l),
        r ==> forall|l: Seq<usize>|
            crate::tree::is_prefix(l, location@) && l != location@ ==> loc_valid(final(tree)@, l)
                && crate::tree::same_except_children(
                #[trigger] node_at(final(tree)@, l),
                node_at(old(tree)@, l),
            ),
{
    if !check_location(tree, location) {
        return false;
    }
    if location.len() > crate::priority::MAX_SEARCH_DEPTH - 1 {
        return false;
    }
    let found = tree.find_branch(location);
    if !found.board.is_playable() {
        return false;
    }
    let n = found.children.len();
    let mut i: usize = 0;
    while i < n
        invariant
            0 <= i <= n,
            n == found.children@.len(),
            found@ == node_at(tree@, location@),
            forall|j: int| 0 <= j < i ==> (#[trigger] found@.children[j]).board.playable(),
        decreases n - i,
    {
        broadcast use crate::tree::lemma_bview_children;

        proof {
            crate::tree::lemma_child_view(found, i as int);
        }
        if !found.children[i].board.is_playable() {
            proof {
                assert(!expandable(tree@, location@));
            }
            return false;
        }
        i += 1;
    }
    let ghost fv = found@;
    let fb = found.board;
    let mut sub = found.clone();
    proof {
        assert(sub@ == fv);
        assert(sub.board == fv.board);
        assert(sub.board == fb);
        assert(sub@.children.len() == sub.children@.len()) by {
            crate::tree::lemma_bview_children(sub);
        }
        assert forall|j: int|
            0 <= j < sub@.children.len() implies (#[trigger] sub@.children[j]).board.playable() by {
            crate::tree::lemma_bview_children(*found);
            assert(fv.children.len() == found.children@.len());
            assert(fv.children[j].board.playable());
        }
        assert(expandable(tree@, location@));
    }
    sub.run_node(location.len());
    tree.insert_branch(sub, location);
    true
}

} // verus!
