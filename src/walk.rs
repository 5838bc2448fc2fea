//! A depth-first walk over a node hierarchy with an explicit work stack.
//! The host looks up each visited node's children and hands them back; the
//! walk fixes the order: every node before its children, siblings in order,
//! and each subtree finished before the next sibling starts.
use vstd::prelude::*;

verus! {

/// The pending nodes of a walk, the next one to visit last.
pub struct HierarchyWalk {
    stack: Vec<u64>,
}

impl View for HierarchyWalk {
    type V = Seq<u64>;

    closed spec fn view(&self) -> Seq<u64> {
        self.stack@
    }
}

impl HierarchyWalk {
    /// A walk that starts at `root`.
    pub fn new(root: u64) -> (w: HierarchyWalk)
        ensures
            w@ == seq![root],
    {
        HierarchyWalk { stack: vec![root] }
    }

    /// The next node to visit, or `None` once the walk is over.
    pub fn next_node(&mut self) -> (r: Option<u64>)
        ensures
            old(self)@.len() == 0 ==> r is None && final(self)@ == old(self)@,
            old(self)@.len() > 0 ==> r == Some(old(self)@.last()) && final(self)@
                == old(self)@.drop_last(),
    {
        self.stack.pop()
    }

    /// Schedules the children of the node just visited, so that the first
    /// child is visited next and the rest follow in order.
    pub fn push_children(&mut self, children: &Vec<u64>)
        ensures
            final(self)@ == old(self)@ + children@.reverse(),
    {
        let ghost start = self.stack@;
        let mut i: usize = children.len();
        while i > 0
            invariant
                i <= children@.len(),
                self.stack@ == start + children@.subrange(i as int, children@.len() as int).reverse(),
            decreases i,
        {
            i = i - 1;
            self.stack.push(children[i]);
            assert(self.stack@ =~= start + children@.subrange(i as int, children@.len() as int).reverse());
        }
        assert(children@.subrange(0, children@.len() as int) =~= children@);
    }
}

} // verus!
