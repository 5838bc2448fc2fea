//! The target pruning pass: bones that no mask group claims lose their
//! animation-target binding.
use vstd::prelude::*;
use crate::bone_id::BoneId;
use crate::target_set::TargetSet;

verus! {

/// A live skeleton node: the id of its bone and whether it still carries an
/// animation-target binding.
#[derive(Clone, Copy, Debug, PartialEq, Eq, Structural)]
pub struct SkeletonNode {
    pub id: BoneId,
    pub bound: bool,
}

/// The nodes after pruning against `targets`: a node keeps its binding only
/// if its bone is a target.
pub open spec fn pruned(nodes: Seq<SkeletonNode>, targets: Set<BoneId>) -> Seq<SkeletonNode> {
    nodes.map_values(
        |n: SkeletonNode| SkeletonNode { id: n.id, bound: n.bound && targets.contains(n.id) },
    )
}

/// Removes the binding of every node whose bone is not in `targets`, and
/// returns, in increasing order, the positions of the nodes that lost it.
pub fn prune_targets(nodes: &mut Vec<SkeletonNode>, targets: &TargetSet) -> (removed: Vec<usize>)
    ensures
        final(nodes)@ == pruned(old(nodes)@, targets@),
        forall|j: int|
            0 <= j < removed@.len() ==> {
                let i = #[trigger] removed@[j] as int;
                &&& 0 <= i < old(nodes)@.len()
                &&& old(nodes)@[i].bound
                &&& !targets@.contains(old(nodes)@[i].id)
            },
        forall|i: int|
            0 <= i < old(nodes)@.len() && old(nodes)@[i].bound && !targets@.contains(
                old(nodes)@[i].id,
            ) ==> removed@.contains(i as usize),
        forall|a: int, b: int| 0 <= a < b < removed@.len() ==> removed@[a] < removed@[b],
{
    let ghost start = nodes@;
    let mut removed: Vec<usize> = Vec::new();
    let mut i: usize = 0;
    while i < nodes.len()
        invariant
            nodes@.len() == start.len(),
            i <= start.len(),
            forall|j: int| 0 <= j < i ==> nodes@[j] == pruned(start, targets@)[j],
            forall|j: int| i <= j < start.len() ==> nodes@[j] == start[j],
            forall|j: int|
                0 <= j < removed@.len() ==> {
                    let x = #[trigger] removed@[j] as int;
                    &&& 0 <= x < i
                    &&& start[x].bound
                    &&& !targets@.contains(start[x].id)
                },
            forall|x: int|
                0 <= x < i && start[x].bound && !targets@.contains(start[x].id)
                    ==> removed@.contains(x as usize),
            forall|a: int, b: int| 0 <= a < b < removed@.len() ==> removed@[a] < removed@[b],
        decreases start.len() - i,
    {
        let node = nodes[i];
        if node.bound && !targets.contains(node.id) {
            nodes.set(i, SkeletonNode { id: node.id, bound: false });
            let ghost before = removed@;
            removed.push(i);
            proof {
                assert forall|x: int|
                    0 <= x < i + 1 && start[x].bound && !targets@.contains(start[x].id)
                        implies removed@.contains(x as usize) by {
                    if x < i {
                        let w = choose|w: int| 0 <= w < before.len() && before[w] == x as usize;
                        assert(removed@[w] == x as usize);
                    } else {
                        assert(removed@[before.len() as int] == i);
                    }
                }
            }
        }
        i = i + 1;
    }
    assert(nodes@ =~= pruned(start, targets@));
    removed
}

/// Soundness: after pruning, every node that keeps a binding has a bone in
/// the target set, and no node outside the target set keeps one.
pub proof fn lemma_prune_sound(nodes: Seq<SkeletonNode>, targets: Set<BoneId>)
    ensures
        pruned(nodes, targets).len() == nodes.len(),
        forall|i: int|
            0 <= i < nodes.len() ==> (#[trigger] pruned(nodes, targets)[i]).id == nodes[i].id,
        forall|i: int|
            0 <= i < nodes.len() && (#[trigger] pruned(nodes, targets)[i]).bound ==> targets.contains(
                nodes[i].id,
            ),
        forall|i: int|
            0 <= i < nodes.len() && !targets.contains(nodes[i].id) ==> !(#[trigger] pruned(
                nodes,
                targets,
            )[i]).bound,
{
}

/// Idempotence: pruning a second time against the same targets changes
/// nothing.
pub proof fn lemma_prune_idempotent(nodes: Seq<SkeletonNode>, targets: Set<BoneId>)
    ensures
        pruned(pruned(nodes, targets), targets) == pruned(nodes, targets),
{
    assert(pruned(pruned(nodes, targets), targets) =~= pruned(nodes, targets));
}

} // verus!
