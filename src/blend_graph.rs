//! The blend graph: one root, one additive-combine node under it, and one
//! leaf per clip under the combine node. Every node has unit weight; a leaf
//! is gated by its group mask alone.
use vstd::prelude::*;
use crate::group_mask::{GroupMask, MASK_WIDTH};

verus! {

/// The position of the root node.
pub const ROOT_NODE: usize = 0;

/// The position of the additive-combine node.
pub const COMBINE_NODE: usize = 1;

/// A node of the blend graph. Edges point from child to parent.
#[derive(Clone, Copy, Debug, PartialEq, Eq, Structural)]
pub enum BlendNode {
    Root,
    /// Sums the poses of its children.
    Combine { parent: usize },
    /// Plays clip `clip`, driving only the bones of the groups in `mask`.
    Clip { parent: usize, clip: usize, mask: GroupMask },
}

/// The graph built for clips with the given masks, clip `i` at node `i + 2`.
pub open spec fn graph_for(masks: Seq<GroupMask>) -> Seq<BlendNode> {
    seq![BlendNode::Root, BlendNode::Combine { parent: ROOT_NODE }] + Seq::new(
        masks.len(),
        |i: int| BlendNode::Clip { parent: COMBINE_NODE, clip: i as usize, mask: masks[i] },
    )
}

/// A built blend graph, immutable once built.
pub struct BlendGraph {
    nodes: Vec<BlendNode>,
}

impl View for BlendGraph {
    type V = Seq<BlendNode>;

    closed spec fn view(&self) -> Seq<BlendNode> {
        self.nodes@
    }
}

/// The mask every clip gets by default: all `group_count` groups, so the
/// first clip is the fallback pose for every group and the others may drive
/// any group too.
pub fn default_clip_masks(clip_count: usize, group_count: usize) -> (masks: Vec<GroupMask>)
    requires
        group_count <= MASK_WIDTH,
    ensures
        masks@.len() == clip_count,
        forall|i: int|
            0 <= i < clip_count ==> (#[trigger] masks@[i])@ == Set::new(|g: nat| g < group_count),
{
    let full = GroupMask::first_groups(group_count);
    let mut masks: Vec<GroupMask> = Vec::new();
    let mut i: usize = 0;
    while i < clip_count
        invariant
            i <= clip_count,
            masks@.len() == i,
            full@ == Set::new(|g: nat| g < group_count),
            forall|j: int| 0 <= j < i ==> masks@[j] == full,
        decreases clip_count - i,
    {
        masks.push(full);
        i = i + 1;
    }
    masks
}

impl BlendGraph {
    /// Builds the graph for clips `0..clip_masks.len()`, clip `i` restricted
    /// to the groups of `clip_masks[i]`.
    pub fn build(clip_masks: &Vec<GroupMask>) -> (g: BlendGraph)
        requires
            clip_masks@.len() + 2 <= usize::MAX,
        ensures
            g@ == graph_for(clip_masks@),
    {
        let mut nodes: Vec<BlendNode> = vec![BlendNode::Root, BlendNode::Combine { parent: ROOT_NODE }];
        let mut i: usize = 0;
        while i < clip_masks.len()
            invariant
                i <= clip_masks@.len(),
                nodes@ == graph_for(clip_masks@).take(i + 2),
            decreases clip_masks@.len() - i,
        {
            nodes.push(BlendNode::Clip { parent: COMBINE_NODE, clip: i, mask: clip_masks[i] });
            i = i + 1;
            assert(nodes@ =~= graph_for(clip_masks@).take(i + 2));
        }
        assert(nodes@ =~= graph_for(clip_masks@));
        BlendGraph { nodes }
    }

    /// How many nodes the graph has.
    pub fn len(&self) -> (n: usize)
        ensures
            n == self@.len(),
    {
        self.nodes.len()
    }

    /// The node at position `i`.
    pub fn node(&self, i: usize) -> (n: BlendNode)
        requires
            i < self@.len(),
        ensures
            n == self@[i as int],
    {
        self.nodes[i]
    }

    /// The positions of the clip leaves, in clip order: what playback starts,
    /// each one looped.
    pub fn clip_nodes(&self) -> (r: Vec<usize>)
        ensures
            forall|j: int| 0 <= j < r@.len() ==> (#[trigger] self@[r@[j] as int]) is Clip,
            forall|i: int| 0 <= i < self@.len() && self@[i] is Clip ==> r@.contains(i as usize),
            forall|a: int, b: int| 0 <= a < b < r@.len() ==> r@[a] < r@[b],
            forall|j: int| 0 <= j < r@.len() ==> r@[j] < self@.len(),
    {
        let mut r: Vec<usize> = Vec::new();
        let mut i: usize = 0;
        while i < self.nodes.len()
            invariant
                i <= self@.len(),
                forall|j: int| 0 <= j < r@.len() ==> r@[j] < i,
                forall|j: int| 0 <= j < r@.len() ==> (#[trigger] self@[r@[j] as int]) is Clip,
                forall|x: int| 0 <= x < i && self@[x] is Clip ==> r@.contains(x as usize),
                forall|a: int, b: int| 0 <= a < b < r@.len() ==> r@[a] < r@[b],
            decreases self@.len() - i,
        {
            if let BlendNode::Clip { .. } = self.nodes[i] {
                let ghost before = r@;
                r.push(i);
                proof {
                    assert forall|x: int| 0 <= x < i + 1 && self@[x] is Clip implies r@.contains(x as usize) by {
                        if x < i {
                            let w = choose|w: int| 0 <= w < before.len() && before[w] == x as usize;
                            assert(r@[w] == x as usize);
                        } else {
                            assert(r@[before.len() as int] == i);
                        }
                    }
                }
            }
            i = i + 1;
        }
        r
    }
}

/// Graph shape: a graph built for `C` clips has exactly one root (node 0),
/// exactly one combine node (node 1, a child of the root), and exactly `C`
/// clip leaves (nodes `2..C + 2`), each a child of the combine node.
pub proof fn lemma_graph_shape(masks: Seq<GroupMask>)
    ensures
        graph_for(masks).len() == masks.len() + 2,
        forall|i: int|
            0 <= i < graph_for(masks).len() ==> ((#[trigger] graph_for(masks)[i]) is Root <==> i
                == ROOT_NODE),
        forall|i: int|
            0 <= i < graph_for(masks).len() ==> ((#[trigger] graph_for(masks)[i]) is Combine <==> i
                == COMBINE_NODE),
        graph_for(masks)[COMBINE_NODE as int] == (BlendNode::Combine { parent: ROOT_NODE }),
        forall|i: int|
            0 <= i < graph_for(masks).len() ==> ((#[trigger] graph_for(masks)[i]) is Clip <==> 2
                <= i),
        forall|c: int|
            0 <= c < masks.len() ==> #[trigger] graph_for(masks)[c + 2] == (BlendNode::Clip {
                parent: COMBINE_NODE,
                clip: c as usize,
                mask: masks[c],
            }),
{
    assert forall|c: int| 0 <= c < masks.len() implies #[trigger] graph_for(masks)[c + 2] == (
    BlendNode::Clip { parent: COMBINE_NODE, clip: c as usize, mask: masks[c] }) by {
        assert(graph_for(masks)[c + 2] == Seq::new(
            masks.len(),
            |i: int| BlendNode::Clip { parent: COMBINE_NODE, clip: i as usize, mask: masks[i] },
        )[c]);
    }
}

} // verus!
