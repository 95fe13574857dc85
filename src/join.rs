use vstd::prelude::*;
use crate::model::{Group, JoinTarget, PendingMembership};

verus! {

/// Whether `group` is a join target of `m`: a live group of the requested id.
pub open spec fn is_join_target(m: PendingMembership, group: Group) -> bool {
    group.exists && group.group_id == m.group_id
}

pub open spec fn target_of(m: PendingMembership, group: Group) -> JoinTarget {
    JoinTarget { group_id: m.group_id, member: m.member, criteria: group.criteria }
}

/// The targets of one request, in the order of `groups`.
pub open spec fn targets_for(m: PendingMembership, groups: Seq<Group>) -> Seq<JoinTarget>
    decreases groups.len(),
{
    if groups.len() == 0 {
        Seq::empty()
    } else {
        targets_for(m, groups.drop_last()) + if is_join_target(m, groups.last()) {
            seq![target_of(m, groups.last())]
        } else {
            Seq::empty()
        }
    }
}

/// All targets of all requests: requests in order, and for each its groups
/// in order.
pub open spec fn join(pending: Seq<PendingMembership>, groups: Seq<Group>) -> Seq<JoinTarget>
    decreases pending.len(),
{
    if pending.len() == 0 {
        Seq::empty()
    } else {
        join(pending.drop_last(), groups) + targets_for(pending.last(), groups)
    }
}


proof fn lemma_targets_for_sound(m: PendingMembership, groups: Seq<Group>, k: int)
    requires
        0 <= k < targets_for(m, groups).len(),
    ensures
        exists|j: int|
            0 <= j < groups.len() && is_join_target(m, #[trigger] groups[j])
                && targets_for(m, groups)[k] == target_of(m, groups[j]),
    decreases groups.len(),
{
    let init = groups.drop_last();
    if k < targets_for(m, init).len() {
        lemma_targets_for_sound(m, init, k);
        let j = choose|j: int|
            0 <= j < init.len() && is_join_target(m, #[trigger] init[j])
                && targets_for(m, init)[k] == target_of(m, init[j]);
        assert(groups[j] == init[j]);
    } else {
        assert(groups[groups.len() - 1] == groups.last());
    }
}

proof fn lemma_targets_for_complete(m: PendingMembership, groups: Seq<Group>, j: int)
    requires
        0 <= j < groups.len(),
        is_join_target(m, groups[j]),
    ensures
        targets_for(m, groups).contains(target_of(m, groups[j])),
    decreases groups.len(),
{
    let init = groups.drop_last();
    let tail = if is_join_target(m, groups.last()) {
        seq![target_of(m, groups.last())]
    } else {
        Seq::empty()
    };
    if j < groups.len() - 1 {
        assert(init[j] == groups[j]);
        lemma_targets_for_complete(m, init, j);
        let k = choose|k: int| 0 <= k < targets_for(m, init).len() && targets_for(m, init)[k]
            == target_of(m, groups[j]);
        assert((targets_for(m, init) + tail)[k] == target_of(m, groups[j]));
    } else {
        assert((targets_for(m, init) + tail)[targets_for(m, init).len() as int] == target_of(
            m,
            groups[j],
        ));
    }
}

/// Every join target comes from a request and a group of the same id, and
/// that group exists: deleted groups and groups of other ids are never
/// selected.
pub proof fn lemma_join_sound(pending: Seq<PendingMembership>, groups: Seq<Group>, k: int)
    requires
        0 <= k < join(pending, groups).len(),
    ensures
        exists|i: int, j: int|
            0 <= i < pending.len() && 0 <= j < groups.len() && #[trigger] join(pending, groups)[k]
                == target_of(#[trigger] pending[i], #[trigger] groups[j]) && groups[j].exists
                && groups[j].group_id == pending[i].group_id,
    decreases pending.len(),
{
    let init = pending.drop_last();
    let i_last = pending.len() - 1;
    if k < join(init, groups).len() {
        lemma_join_sound(init, groups, k);
        let (i, j) = choose|i: int, j: int|
            0 <= i < init.len() && 0 <= j < groups.len() && #[trigger] join(init, groups)[k]
                == target_of(#[trigger] init[i], #[trigger] groups[j]) && groups[j].exists
                && groups[j].group_id == init[i].group_id;
        assert(pending[i] == init[i]);
    } else {
        let k2 = k - join(init, groups).len();
        lemma_targets_for_sound(pending.last(), groups, k2);
        let j = choose|j: int|
            0 <= j < groups.len() && is_join_target(pending.last(), #[trigger] groups[j])
                && targets_for(pending.last(), groups)[k2] == target_of(pending.last(), groups[j]);
        assert(pending[i_last] == pending.last());
        assert(join(pending, groups)[k] == target_of(pending[i_last], groups[j]));
    }
}

/// Every request paired with every live group of its id is a join target.
pub proof fn lemma_join_complete(pending: Seq<PendingMembership>, groups: Seq<Group>, i: int, j: int)
    requires
        0 <= i < pending.len(),
        0 <= j < groups.len(),
        groups[j].exists,
        groups[j].group_id == pending[i].group_id,
    ensures
        join(pending, groups).contains(target_of(pending[i], groups[j])),
    decreases pending.len(),
{
    let init = pending.drop_last();
    let t = target_of(pending[i], groups[j]);
    if i < pending.len() - 1 {
        assert(init[i] == pending[i]);
        lemma_join_complete(init, groups, i, j);
        let k = choose|k: int| 0 <= k < join(init, groups).len() && join(init, groups)[k] == t;
        assert((join(init, groups) + targets_for(pending.last(), groups))[k] == t);
    } else {
        lemma_targets_for_complete(pending.last(), groups, j);
        let k = choose|k: int|
            0 <= k < targets_for(pending.last(), groups).len() && targets_for(
                pending.last(),
                groups,
            )[k] == t;
        assert((join(init, groups) + targets_for(pending.last(), groups))[join(init, groups).len()
            + k] == t);
    }
}

/// Pairs each pending request with every live group of its id.
pub fn join_targets(pending: &Vec<PendingMembership>, groups: &Vec<Group>) -> (r: Vec<JoinTarget>)
    ensures
        r@ == join(pending@, groups@),
{
    let mut r: Vec<JoinTarget> = Vec::new();
    let mut i: usize = 0;
    while i < pending.len()
        invariant
            i <= pending.len(),
            r@ == join(pending@.take(i as int), groups@),
        decreases pending.len() - i,
    {
        let m = &pending[i];
        let mut j: usize = 0;
        while j < groups.len()
            invariant
                i < pending.len(),
                m == pending@[i as int],
                j <= groups.len(),
                r@ == join(pending@.take(i as int), groups@) + targets_for(
                    *m,
                    groups@.take(j as int),
                ),
            decreases groups.len() - j,
        {
            let g = &groups[j];
            proof {
                assert(groups@.take(j as int + 1).drop_last() == groups@.take(j as int));
            }
            if g.exists && g.group_id == m.group_id {
                r.push(
                    JoinTarget {
                        group_id: m.group_id,
                        member: m.member.clone(),
                        criteria: g.criteria.duplicate(),
                    },
                );
            }
            j = j + 1;
        }
        proof {
            assert(groups@.take(groups.len() as int) == groups@);
            assert(pending@.take(i as int + 1).drop_last() == pending@.take(i as int));
        }
        i = i + 1;
    }
    proof {
        assert(pending@.take(pending.len() as int) == pending@);
    }
    r
}

} // verus!
