//! The pure pieces of the decompile driver.
//!
//! The driver itself alternates graph passes that live outside this
//! library; what it computes between them is plain: the table that sends
//! each versioned local to its coalescing group, and the decision to keep
//! iterating while any pass reports progress.

use vstd::prelude::*;

use crate::local::ids_view;
use crate::replace_locals::pairs_view;

verus! {

/// The view of a list of groups: each group a list of local indices.
pub open spec fn groups_view(s: Seq<Vec<usize>>) -> Seq<Seq<nat>> {
    s.map_values(|g: Vec<usize>| ids_view(g@))
}

/// The pairs `(member, group index)` of one group.
pub open spec fn group_pairs(members: Seq<nat>, g: nat) -> Seq<(nat, nat)> {
    members.map_values(|m: nat| (m, g))
}

/// The pairs of all groups from index `i` on, in group order.
pub open spec fn groups_pairs_from(gs: Seq<Seq<nat>>, i: int) -> Seq<(nat, nat)>
    decreases gs.len() - i,
{
    if i < 0 || i >= gs.len() {
        Seq::empty()
    } else {
        group_pairs(gs[i], i as nat) + groups_pairs_from(gs, i + 1)
    }
}

/// The table that sends each member of each group to its group's index,
/// in group order — the shape the substitution passes consume.
pub fn local_group_map(groups: &Vec<Vec<usize>>) -> (r: Vec<(usize, usize)>)
    ensures
        pairs_view(r@) == groups_pairs_from(groups_view(groups@), 0),
{
    let ghost gv = groups_view(groups@);
    let mut r: Vec<(usize, usize)> = Vec::new();
    let mut g: usize = 0;
    while g < groups.len()
        invariant
            g <= groups@.len(),
            gv == groups_view(groups@),
            gv.len() == groups@.len(),
            forall|j: int| 0 <= j < groups@.len() ==> gv[j] == ids_view((#[trigger] groups@[j])@),
            pairs_view(r@) =~= groups_pairs_from(gv, 0).subrange(
                0,
                groups_pairs_from(gv, 0).len() - groups_pairs_from(gv, g as int).len(),
            ),
            groups_pairs_from(gv, 0).len() >= groups_pairs_from(gv, g as int).len(),
            forall|j: int|
                g <= j < gv.len() ==> groups_pairs_from(gv, j) == group_pairs(
                    gv[j],
                    j as nat,
                ) + groups_pairs_from(gv, j + 1),
        decreases groups@.len() - g,
    {
        let members = &groups[g];
        let ghost r0 = pairs_view(r@);
        let mut k: usize = 0;
        while k < members.len()
            invariant
                k <= members@.len(),
                gv[g as int] == ids_view(members@),
                g < gv.len(),
                pairs_view(r@) =~= r0 + group_pairs(gv[g as int], g as nat).subrange(0, k as int),
            decreases members@.len() - k,
        {
            let ghost pre = pairs_view(r@);
            r.push((members[k], g));
            proof {
                let gp = group_pairs(gv[g as int], g as nat);
                assert(gp[k as int] == (members@[k as int] as nat, g as nat));
                assert(gp.subrange(0, k + 1) =~= gp.subrange(0, k as int).push(gp[k as int]));
                assert(pairs_view(r@) =~= pre.push((members@[k as int] as nat, g as nat)));
            }
            k += 1;
        }
        proof {
            let gp = group_pairs(gv[g as int], g as nat);
            assert(gp.subrange(0, gp.len() as int) =~= gp);
            lemma_groups_pairs_from_len(gv, g as int);
            let whole = groups_pairs_from(gv, 0);
            let tail_g = groups_pairs_from(gv, g as int);
            let tail_g1 = groups_pairs_from(gv, g + 1);
            assert(tail_g == gp + tail_g1);
            assert forall|j: int| 0 <= j < gp.len() implies whole[whole.len() - tail_g.len() + j]
                == gp[j] by {
                assert(whole.subrange(whole.len() - tail_g.len(), whole.len() as int)[j]
                    == tail_g[j]);
                assert(tail_g[j] == gp[j]);
            }
            assert(pairs_view(r@) =~= whole.subrange(0, whole.len() - tail_g1.len()));
        }
        g += 1;
    }
    proof {
        assert(pairs_view(r@) =~= groups_pairs_from(gv, 0));
    }
    r
}

/// The tail at `i` is the group at `i` followed by the tail at `i + 1`,
/// and every tail is a suffix of the whole table.
proof fn lemma_groups_pairs_from_len(gs: Seq<Seq<nat>>, i: int)
    requires
        0 <= i < gs.len(),
    ensures
        groups_pairs_from(gs, i).len() == group_pairs(gs[i], i as nat).len()
            + groups_pairs_from(gs, i + 1).len(),
        groups_pairs_from(gs, 0).len() >= groups_pairs_from(gs, i).len(),
        groups_pairs_from(gs, 0).subrange(
            groups_pairs_from(gs, 0).len() - groups_pairs_from(gs, i).len(),
            groups_pairs_from(gs, 0).len() as int,
        ) == groups_pairs_from(gs, i),
    decreases i,
{
    if i == 0 {
        assert(groups_pairs_from(gs, 0).subrange(0, groups_pairs_from(gs, 0).len() as int)
            =~= groups_pairs_from(gs, 0));
    } else {
        lemma_groups_pairs_from_len(gs, i - 1);
        let whole = groups_pairs_from(gs, 0);
        let prev = groups_pairs_from(gs, i - 1);
        let cur = groups_pairs_from(gs, i);
        assert(prev == group_pairs(gs[i - 1], (i - 1) as nat) + cur);
        assert(cur.len() <= prev.len());
        assert(whole.subrange(whole.len() - cur.len(), whole.len() as int) =~= cur) by {
            assert(whole.subrange(whole.len() - prev.len(), whole.len() as int) == prev);
            assert forall|j: int| 0 <= j < cur.len() implies whole.subrange(
                whole.len() - cur.len(),
                whole.len() as int,
            )[j] == cur[j] by {
                assert(prev[prev.len() - cur.len() + j] == cur[j]);
                assert(whole[whole.len() - cur.len() + j] == prev[prev.len() - cur.len() + j]);
            }
        }
    }
}

/// The fixed-point driver's decision: keep iterating exactly while some
/// pass reported progress.
pub fn structuring_progress(
    jumps_changed: bool,
    conditionals_changed: bool,
    params_changed: bool,
) -> (r: bool)
    ensures
        r == (jumps_changed || conditionals_changed || params_changed),
{
    jumps_changed || conditionals_changed || params_changed
}

} // verus!
