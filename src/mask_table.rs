//! The mask-group table: which bones each body-part group covers.
use vstd::prelude::*;
use crate::bone_id::{bone_id_of_segments, target_id_of, BoneId};
use crate::bone_path::{lemma_names_view_push, names_view, split_on, split_path, PATH_SEPARATOR};
use crate::group_mask::{GroupMask, MASK_WIDTH};
use crate::target_set::TargetSet;

verus! {

/// A group's bone path prefix and suffix, each as a sequence of names.
pub type GroupView = (Seq<Seq<char>>, Seq<Seq<char>>);

/// The path of the chain element of length `k`: the prefix followed by the
/// first `k` suffix segments.
pub open spec fn chain_of(prefix: Seq<Seq<char>>, suffix: Seq<Seq<char>>, k: int) -> Seq<
    Seq<char>,
> {
    prefix + suffix.take(k)
}

/// The id of chain element `k` of group `g`.
pub open spec fn chain_id(t: Seq<GroupView>, g: int, k: int) -> BoneId {
    target_id_of(chain_of(t[g].0, t[g].1, k))
}

/// The chain ids of every group of `t`, group `g` at position `g`.
pub open spec fn chains_of(t: Seq<GroupView>) -> Seq<Seq<BoneId>> {
    Seq::new(t.len(), |g: int| Seq::new(t[g].1.len() + 1, |k: int| chain_id(t, g, k)))
}

/// Whether one of the first `kmax` ids of chain `g` is `id`.
pub open spec fn registered(cs: Seq<Seq<BoneId>>, id: BoneId, g: int, kmax: int) -> bool {
    exists|k: int| 0 <= k < kmax && #[trigger] cs[g][k] == id
}

/// Whether chain `g` holds `id`.
pub open spec fn in_chain(cs: Seq<Seq<BoneId>>, id: BoneId, g: int) -> bool {
    0 <= g < cs.len() && registered(cs, id, g, cs[g].len() as int)
}

/// The positions of the chains that hold `id`.
pub open spec fn chain_groups(cs: Seq<Seq<BoneId>>, id: BoneId) -> Set<nat> {
    Set::new(|g: nat| in_chain(cs, id, g as int))
}

/// The ids that some chain holds.
pub open spec fn chain_targets(cs: Seq<Seq<BoneId>>) -> Set<BoneId> {
    Set::new(|id: BoneId| exists|g: nat| #[trigger] in_chain(cs, id, g as int))
}

/// The groups that cover `id`.
pub open spec fn groups_of(t: Seq<GroupView>, id: BoneId) -> Set<nat> {
    chain_groups(chains_of(t), id)
}

/// The bones that at least one group covers.
pub open spec fn targets_of(t: Seq<GroupView>) -> Set<BoneId> {
    chain_targets(chains_of(t))
}

/// The chains that hold `id` once the chains before `g` and the first `k`
/// ids of chain `g` have been registered.
spec fn partial_groups(cs: Seq<Seq<BoneId>>, id: BoneId, g: int, k: int) -> Set<nat> {
    Set::new(
        |h: nat| (h < g && in_chain(cs, id, h as int)) || (h == g && registered(cs, id, g, k)),
    )
}

/// Registering id `k` of chain `g` adds `g` to the groups of that id and
/// changes no other id.
proof fn lemma_register_step(cs: Seq<Seq<BoneId>>, id: BoneId, g: int, k: int)
    requires
        0 <= g < cs.len(),
        0 <= k,
    ensures
        partial_groups(cs, id, g, k + 1) == if cs[g][k] == id {
            partial_groups(cs, id, g, k).insert(g as nat)
        } else {
            partial_groups(cs, id, g, k)
        },
{
    assert(registered(cs, id, g, k + 1) <==> (registered(cs, id, g, k) || cs[g][k] == id)) by {
        if registered(cs, id, g, k + 1) && cs[g][k] != id {
            let w = choose|w: int| 0 <= w < k + 1 && #[trigger] cs[g][w] == id;
            assert(w < k);
        }
        if cs[g][k] == id {
            assert(0 <= k < k + 1 && cs[g][k] == id);
        }
        if registered(cs, id, g, k) {
            let w = choose|w: int| 0 <= w < k && #[trigger] cs[g][w] == id;
            assert(0 <= w < k + 1 && cs[g][w] == id);
        }
    }
    if cs[g][k] == id {
        assert(partial_groups(cs, id, g, k + 1) =~= partial_groups(cs, id, g, k).insert(g as nat));
    } else {
        assert(partial_groups(cs, id, g, k + 1) =~= partial_groups(cs, id, g, k));
    }
}

/// Once all of chain `g` is registered, the chain counts as done.
proof fn lemma_group_done(cs: Seq<Seq<BoneId>>, id: BoneId, g: int)
    requires
        0 <= g < cs.len(),
    ensures
        partial_groups(cs, id, g, cs[g].len() as int) == partial_groups(cs, id, g + 1, 0),
{
    assert(!registered(cs, id, g + 1, 0));
    assert(partial_groups(cs, id, g, cs[g].len() as int) =~= partial_groups(cs, id, g + 1, 0));
}

/// With every chain registered the partial groups are the groups of `id`.
proof fn lemma_all_done(cs: Seq<Seq<BoneId>>, id: BoneId)
    ensures
        partial_groups(cs, id, cs.len() as int, 0) == chain_groups(cs, id),
{
    assert(!registered(cs, id, cs.len() as int, 0));
    assert(partial_groups(cs, id, cs.len() as int, 0) =~= chain_groups(cs, id));
}

/// The views of a list of chains.
pub open spec fn chains_view(v: Seq<Vec<BoneId>>) -> Seq<Seq<BoneId>> {
    v.map_values(|c: Vec<BoneId>| c@)
}

/// A declared mask group: a bone path prefix and the suffix segments whose
/// chain the group owns.
pub struct MaskGroupSpec {
    pub prefix: Vec<String>,
    pub suffix: Vec<String>,
}

impl View for MaskGroupSpec {
    type V = GroupView;

    open spec fn view(&self) -> GroupView {
        (names_view(self.prefix@), names_view(self.suffix@))
    }
}

impl MaskGroupSpec {
    /// A group from its written prefix and suffix, such as `("Body", "Head")`.
    pub fn from_paths(prefix: &str, suffix: &str) -> (r: MaskGroupSpec)
        ensures
            r@.0 == split_on(prefix@, PATH_SEPARATOR),
            r@.1 == split_on(suffix@, PATH_SEPARATOR),
    {
        MaskGroupSpec { prefix: split_path(prefix), suffix: split_path(suffix) }
    }

    /// The segments of chain element `k`: the prefix and the first `k`
    /// suffix segments.
    pub fn chain_path(&self, k: usize) -> (path: Vec<String>)
        requires
            k <= self.suffix@.len(),
        ensures
            names_view(path@) == chain_of(self@.0, self@.1, k as int),
    {
        let mut path: Vec<String> = Vec::new();
        let mut i: usize = 0;
        while i < self.prefix.len()
            invariant
                i <= self.prefix@.len(),
                names_view(path@) == names_view(self.prefix@).take(i as int),
            decreases self.prefix@.len() - i,
        {
            let ghost before = path@;
            let x = self.prefix[i].clone();
            path.push(x);
            proof {
                lemma_names_view_push(before, x);
            }
            i = i + 1;
            assert(names_view(path@) =~= names_view(self.prefix@).take(i as int));
        }
        let mut j: usize = 0;
        while j < k
            invariant
                j <= k <= self.suffix@.len(),
                names_view(path@) == names_view(self.prefix@) + names_view(self.suffix@).take(
                    j as int,
                ),
            decreases k - j,
        {
            let ghost before = path@;
            let x = self.suffix[j].clone();
            path.push(x);
            proof {
                lemma_names_view_push(before, x);
            }
            j = j + 1;
            assert(names_view(path@) =~= names_view(self.prefix@) + names_view(
                self.suffix@,
            ).take(j as int));
        }
        assert(names_view(self.prefix@).take(self.prefix@.len() as int) =~= names_view(
            self.prefix@,
        ));
        path
    }

    /// The ids of the group's chain, for the chain lengths `0..=k` where `k`
    /// is the number of suffix segments.
    pub fn chain_ids(&self) -> (ids: Vec<BoneId>)
        ensures
            ids@.len() == self@.1.len() + 1,
            forall|k: int|
                0 <= k < ids@.len() ==> ids@[k] == target_id_of(
                    chain_of(self@.0, self@.1, k),
                ),
    {
        let first = self.chain_path(0);
        let mut ids: Vec<BoneId> = vec![bone_id_of_segments(&first)];
        let mut k: usize = 0;
        while k < self.suffix.len()
            invariant
                k <= self.suffix@.len(),
                ids@.len() == k + 1,
                forall|i: int|
                    0 <= i <= k ==> ids@[i] == target_id_of(chain_of(self@.0, self@.1, i)),
            decreases self.suffix@.len() - k,
        {
            let path = self.chain_path(k + 1);
            ids.push(bone_id_of_segments(&path));
            k = k + 1;
        }
        ids
    }
}

/// Why a mask-group table was refused.
#[derive(Clone, Copy, Debug, PartialEq, Eq, Structural)]
pub enum TableError {
    /// More groups than a [`GroupMask`] has bits.
    TooManyGroups,
}

/// The declared mask groups; group `g` is the `g`-th entry.
pub struct MaskGroupTable {
    groups: Vec<MaskGroupSpec>,
}

impl View for MaskGroupTable {
    type V = Seq<GroupView>;

    closed spec fn view(&self) -> Seq<GroupView> {
        self.groups@.map_values(|m: MaskGroupSpec| m@)
    }
}

impl MaskGroupTable {
    /// The table is small enough for every group id to fit a [`GroupMask`].
    pub closed spec fn wf(&self) -> bool {
        self.groups@.len() <= MASK_WIDTH
    }

    /// A table over the given groups, in order; refused when there are more
    /// groups than a [`GroupMask`] can name.
    pub fn new(groups: Vec<MaskGroupSpec>) -> (r: Result<MaskGroupTable, TableError>)
        ensures
            groups@.len() <= MASK_WIDTH <==> r is Ok,
            r is Err ==> r == Err::<MaskGroupTable, TableError>(TableError::TooManyGroups),
            r matches Ok(t) ==> t.wf() && t@ == groups@.map_values(|m: MaskGroupSpec| m@),
    {
        if groups.len() > MASK_WIDTH {
            return Err(TableError::TooManyGroups);
        }
        let t = MaskGroupTable { groups };
        Ok(t)
    }

    /// A table from written `(prefix, suffix)` pairs, in order.
    pub fn from_paths(paths: &[(&str, &str)]) -> (r: Result<MaskGroupTable, TableError>)
        ensures
            paths@.len() <= MASK_WIDTH <==> r is Ok,
            r is Err ==> r == Err::<MaskGroupTable, TableError>(TableError::TooManyGroups),
            r matches Ok(t) ==> t.wf() && t@.len() == paths@.len() && forall|g: int|
                0 <= g < paths@.len() ==> #[trigger] t@[g] == (
                    split_on(paths@[g].0@, PATH_SEPARATOR),
                    split_on(paths@[g].1@, PATH_SEPARATOR),
                ),
    {
        let mut groups: Vec<MaskGroupSpec> = Vec::new();
        let mut i: usize = 0;
        while i < paths.len()
            invariant
                i <= paths@.len(),
                groups@.len() == i,
                forall|g: int|
                    0 <= g < i ==> #[trigger] groups@[g]@ == (
                        split_on(paths@[g].0@, PATH_SEPARATOR),
                        split_on(paths@[g].1@, PATH_SEPARATOR),
                    ),
            decreases paths@.len() - i,
        {
            let (prefix, suffix) = paths[i];
            groups.push(MaskGroupSpec::from_paths(prefix, suffix));
            i = i + 1;
        }
        MaskGroupTable::new(groups)
    }

    /// How many groups the table declares.
    pub fn len(&self) -> (n: usize)
        ensures
            n == self@.len(),
    {
        self.groups.len()
    }

    /// The declaration of group `g`.
    pub fn group(&self, g: usize) -> (m: &MaskGroupSpec)
        requires
            g < self@.len(),
        ensures
            m@ == self@[g as int],
    {
        &self.groups[g]
    }

    /// Registers every chain element of every group: the groups of each
    /// bone id and the set of all claimed bones.
    pub fn assign(&self) -> (r: MaskAssignment)
        requires
            self.wf(),
        ensures
            r.wf(),
            assigns(self@, r),
    {
        let ghost t = self@;
        let mut chains: Vec<Vec<BoneId>> = Vec::new();
        let mut g: usize = 0;
        while g < self.groups.len()
            invariant
                t == self@,
                g <= t.len(),
                chains@.len() == g,
                forall|h: int| 0 <= h < g ==> #[trigger] chains_view(chains@)[h] == chains_of(t)[h],
            decreases t.len() - g,
        {
            let ids = self.groups[g].chain_ids();
            proof {
                assert(ids@ =~= chains_of(t)[g as int]);
            }
            let ghost before = chains@;
            chains.push(ids);
            proof {
                assert(chains_view(chains@) =~= chains_view(before).push(chains_of(t)[g as int]));
            }
            g = g + 1;
        }
        assert(chains_view(chains@) =~= chains_of(t));
        MaskAssignment::register_chains(&chains)
    }
}

impl MaskAssignment {
    /// Registers chain `g` of `chains` as group `g`: each id gets the groups
    /// of the chains that hold it, and the target set is every id of every
    /// chain.
    pub fn register_chains(chains: &Vec<Vec<BoneId>>) -> (r: MaskAssignment)
        requires
            chains@.len() <= MASK_WIDTH,
        ensures
            r.wf(),
            r.target_ids() == chain_targets(chains_view(chains@)),
            forall|id: BoneId| #[trigger] r.spec_groups(id) == chain_groups(chains_view(chains@), id),
    {
        let ghost t = chains_view(chains@);
        let mut entries: Vec<(BoneId, GroupMask)> = Vec::new();
        let mut targets = TargetSet::new();
        let mut g: usize = 0;
        proof {
            assert forall|id: BoneId| #[trigger] partial_groups(t, id, 0, 0) == Set::<nat>::empty() by {
                assert(!registered(t, id, 0, 0));
                assert(partial_groups(t, id, 0, 0) =~= Set::<nat>::empty());
            }
            assert(targets@ =~= Set::new(|id: BoneId| partial_groups(t, id, 0, 0) != Set::<nat>::empty()));
        }
        while g < chains.len()
            invariant
                t == chains_view(chains@),
                g <= t.len(),
                t.len() <= MASK_WIDTH,
                entries_agree(entries@, t, g as int, 0),
                targets@ == Set::new(|id: BoneId| partial_groups(t, id, g as int, 0) != Set::<nat>::empty()),
            decreases t.len() - g,
        {
            let ids = &chains[g];
            let mut k: usize = 0;
            while k < ids.len()
                invariant
                    t == chains_view(chains@),
                    g < t.len(),
                    t.len() <= MASK_WIDTH,
                    ids@ == t[g as int],
                    k <= ids@.len(),
                    entries_agree(entries@, t, g as int, k as int),
                    targets@ == Set::new(|id: BoneId| partial_groups(t, id, g as int, k as int) != Set::<nat>::empty()),
                decreases ids@.len() - k,
            {
                let id = ids[k];
                let ghost before = entries@;
                proof {
                    assert forall|x: BoneId| #[trigger] partial_groups(t, x, g as int, k + 1) == if t[g as int][k as int] == x {
                        partial_groups(t, x, g as int, k as int).insert(g as nat)
                    } else {
                        partial_groups(t, x, g as int, k as int)
                    } by {
                        lemma_register_step(t, x, g as int, k as int);
                    }
                }
                let mut j: usize = 0;
                while j < entries.len() && entries[j].0 != id
                    invariant
                        entries@ == before,
                        j <= entries@.len(),
                        forall|i: int| 0 <= i < j ==> entries@[i].0 != id,
                    decreases entries@.len() - j,
                {
                    j = j + 1;
                }
                let found = j < entries.len();
                if found {
                    let m = entries[j].1.with_group(g);
                    entries.set(j, (id, m));
                } else {
                    entries.push((id, GroupMask::empty().with_group(g)));
                }
                targets.insert(id);
                k = k + 1;
                proof {
                    let kk = k as int;
                    assert forall|i: int| 0 <= i < entries@.len() implies #[trigger] entries@[i].1@ == partial_groups(t, entries@[i].0, g as int, kk) by {
                        if i < before.len() {
                            assert(entries@[i].0 == before[i].0);
                        }
                    }
                    assert forall|x: BoneId| partial_groups(t, x, g as int, kk) != Set::<nat>::empty() implies exists|i: int| 0 <= i < entries@.len() && #[trigger] entries@[i].0 == x by {
                        if x != id {
                            assert(partial_groups(t, x, g as int, kk - 1) != Set::<nat>::empty());
                            let i = choose|i: int| 0 <= i < before.len() && #[trigger] before[i].0 == x;
                            assert(entries@[i].0 == x);
                        } else if found {
                            assert(entries@[j as int].0 == x);
                        } else {
                            assert(entries@[before.len() as int].0 == x);
                        }
                    }
                    assert(targets@ =~= Set::new(|x: BoneId| partial_groups(t, x, g as int, kk) != Set::<nat>::empty())) by {
                        assert forall|x: BoneId| targets@.contains(x) <==> partial_groups(t, x, g as int, kk) != Set::<nat>::empty() by {
                            if x == id {
                                assert(partial_groups(t, x, g as int, kk).contains(g as nat));
                            }
                        }
                    }
                }
            }
            proof {
                assert forall|x: BoneId| #[trigger] partial_groups(t, x, g as int, t[g as int].len() as int) == partial_groups(t, x, g + 1, 0) by {
                    lemma_group_done(t, x, g as int);
                }
                assert(targets@ =~= Set::new(|x: BoneId| partial_groups(t, x, g + 1, 0) != Set::<nat>::empty()));
                assert forall|i: int| 0 <= i < entries@.len() implies #[trigger] entries@[i].1@ == partial_groups(t, entries@[i].0, g + 1, 0) by {
                    assert(partial_groups(t, entries@[i].0, g as int, t[g as int].len() as int) == partial_groups(t, entries@[i].0, g + 1, 0));
                }
                let g1: int = g + 1;
                assert forall|x: BoneId| #[trigger] partial_groups(t, x, g1, 0) != Set::<nat>::empty() implies exists|i: int| 0 <= i < entries@.len() && #[trigger] entries@[i].0 == x by {
                    assert(partial_groups(t, x, g as int, t[g as int].len() as int) == partial_groups(t, x, g1, 0));
                }
            }
            g = g + 1;
        }
        proof {
            assert forall|x: BoneId| #[trigger] partial_groups(t, x, t.len() as int, 0) == chain_groups(t, x) by {
                lemma_all_done(t, x);
            }
        }
        let r = MaskAssignment { entries, targets };
        proof {
            assert(r.entries@ == entries@);
            assert forall|x: BoneId| #[trigger] r.spec_groups(x) == chain_groups(t, x) by {
                assert(partial_groups(t, x, t.len() as int, 0) == chain_groups(t, x));
                if exists|i: int| 0 <= i < entries@.len() && #[trigger] entries@[i].0 == x {
                    let c = entries_index(entries@, x);
                    assert(r.spec_groups(x) == entries@[c].1@);
                    assert(entries@[c].0 == x);
                    assert(entries@[c].1@ == partial_groups(t, entries@[c].0, t.len() as int, 0));
                } else {
                    assert(r.spec_groups(x) == Set::<nat>::empty());
                    assert(partial_groups(t, x, t.len() as int, 0) =~= Set::<nat>::empty());
                }
            }
            assert forall|x: BoneId| chain_targets(t).contains(x) <==> r.targets@.contains(x) by {
                assert(partial_groups(t, x, t.len() as int, 0) == chain_groups(t, x));
                if chain_targets(t).contains(x) {
                    let h = choose|h: nat| #[trigger] in_chain(t, x, h as int);
                    assert(chain_groups(t, x).contains(h));
                }
                if r.targets@.contains(x) {
                    assert(chain_groups(t, x) != Set::<nat>::empty());
                    assert(exists|h: nat| chain_groups(t, x).contains(h)) by {
                        if !(exists|h: nat| chain_groups(t, x).contains(h)) {
                            assert(chain_groups(t, x) =~= Set::<nat>::empty());
                        }
                    }
                    let h = choose|h: nat| chain_groups(t, x).contains(h);
                    assert(in_chain(t, x, h as int));
                }
            }
            assert(r.targets@ =~= chain_targets(t));
        }
        r
    }
}

/// The entries list each id with its partial groups, each id at most once,
/// and every id that has a group so far.
spec fn entries_agree(e: Seq<(BoneId, GroupMask)>, t: Seq<Seq<BoneId>>, g: int, k: int) -> bool {
    &&& forall|i: int| 0 <= i < e.len() ==> #[trigger] e[i].1@ == partial_groups(t, e[i].0, g, k)
    &&& forall|i: int, j: int| 0 <= i < j < e.len() ==> e[i].0 != e[j].0
    &&& forall|x: BoneId| partial_groups(t, x, g, k) != Set::<nat>::empty() ==> exists|i: int| 0 <= i < e.len() && #[trigger] e[i].0 == x
}

/// The position of `id` among the entries, if it is there.
spec fn entries_index(e: Seq<(BoneId, GroupMask)>, id: BoneId) -> int {
    choose|i: int| 0 <= i < e.len() && #[trigger] e[i].0 == id
}

/// What a mask-group table assigns: the groups of each bone id, and the
/// target set, the union of every group's bones.
pub struct MaskAssignment {
    entries: Vec<(BoneId, GroupMask)>,
    targets: TargetSet,
}

impl MaskAssignment {
    /// Each id appears at most once among the entries.
    pub closed spec fn wf(&self) -> bool {
        forall|i: int, j: int| 0 <= i < j < self.entries@.len() ==> self.entries@[i].0 != self.entries@[j].0
    }

    /// The groups assigned to `id`; none for a bone no group claims.
    pub closed spec fn spec_groups(&self, id: BoneId) -> Set<nat> {
        if exists|i: int| 0 <= i < self.entries@.len() && #[trigger] self.entries@[i].0 == id {
            self.entries@[entries_index(self.entries@, id)].1@
        } else {
            Set::empty()
        }
    }

    /// The groups assigned to `id`, as a mask.
    pub fn groups_of(&self, id: BoneId) -> (m: GroupMask)
        requires
            self.wf(),
        ensures
            m@ == self.spec_groups(id),
    {
        let mut j: usize = 0;
        while j < self.entries.len()
            invariant
                self.wf(),
                j <= self.entries@.len(),
                forall|i: int| 0 <= i < j ==> self.entries@[i].0 != id,
            decreases self.entries@.len() - j,
        {
            if self.entries[j].0 == id {
                let ghost c = entries_index(self.entries@, id);
                proof {
                    let jj = j as int;
                    assert(0 <= jj < self.entries@.len() && self.entries@[jj].0 == id);
                    assert(0 <= c < self.entries@.len() && self.entries@[c].0 == id);
                    if c < jj {
                        assert(self.entries@[c].0 != self.entries@[jj].0);
                    } else if jj < c {
                        assert(self.entries@[jj].0 != self.entries@[c].0);
                    }
                }
                return self.entries[j].1;
            }
            j = j + 1;
        }
        GroupMask::empty()
    }

    /// The bones that some group claims.
    pub closed spec fn target_ids(&self) -> Set<BoneId> {
        self.targets@
    }

    /// The target set: the bones that some group claims.
    pub fn targets(&self) -> (s: &TargetSet)
        ensures
            s@ == self.target_ids(),
    {
        &self.targets
    }

    /// Whether some group claims `id`.
    pub fn is_target(&self, id: BoneId) -> (r: bool)
        ensures
            r == self.target_ids().contains(id),
    {
        self.targets.contains(id)
    }
}

/// Whether `a` is what [`MaskGroupTable::assign`] yields for a table with
/// view `t`.
pub open spec fn assigns(t: Seq<GroupView>, a: MaskAssignment) -> bool {
    &&& a.target_ids() == targets_of(t)
    &&& forall|id: BoneId| #[trigger] a.spec_groups(id) == groups_of(t, id)
}

/// Determinism: two assignments made from tables with the same groups give
/// every bone the same groups and have the same target set.
pub proof fn lemma_assign_deterministic(
    t1: Seq<GroupView>,
    t2: Seq<GroupView>,
    a1: MaskAssignment,
    a2: MaskAssignment,
)
    requires
        t1 == t2,
        assigns(t1, a1),
        assigns(t2, a2),
    ensures
        a1.target_ids() == a2.target_ids(),
        forall|id: BoneId| #[trigger] a1.spec_groups(id) == a2.spec_groups(id),
{
    assert forall|id: BoneId| #[trigger] a1.spec_groups(id) == a2.spec_groups(id) by {
        assert(a1.spec_groups(id) == groups_of(t1, id));
        assert(a2.spec_groups(id) == groups_of(t2, id));
    }
}

/// Chain completeness: a group with `k` suffix segments has the `k + 1`
/// chain paths of lengths `|prefix| + 0 ..= |prefix| + k`, and each one is a
/// strict prefix of every longer one, one segment longer than the one before.
pub proof fn lemma_chain_complete(prefix: Seq<Seq<char>>, suffix: Seq<Seq<char>>)
    ensures
        forall|i: int|
            0 <= i <= suffix.len() ==> (#[trigger] chain_of(prefix, suffix, i)).len() == prefix.len()
                + i,
        forall|i: int|
            0 <= i < suffix.len() ==> #[trigger] chain_of(prefix, suffix, i + 1) == chain_of(
                prefix,
                suffix,
                i,
            ).push(suffix[i]),
        forall|i: int, j: int|
            0 <= i < j <= suffix.len() ==> #[trigger] chain_of(prefix, suffix, j).take(
                chain_of(prefix, suffix, i).len() as int,
            ) == #[trigger] chain_of(prefix, suffix, i),
{
    assert forall|i: int| 0 <= i < suffix.len() implies #[trigger] chain_of(prefix, suffix, i + 1)
        == chain_of(prefix, suffix, i).push(suffix[i]) by {
        assert(chain_of(prefix, suffix, i + 1) =~= chain_of(prefix, suffix, i).push(suffix[i]));
    }
    assert forall|i: int, j: int| 0 <= i < j <= suffix.len() implies #[trigger] chain_of(
        prefix,
        suffix,
        j,
    ).take(chain_of(prefix, suffix, i).len() as int) == #[trigger] chain_of(prefix, suffix, i) by {
        assert(chain_of(prefix, suffix, j).take(chain_of(prefix, suffix, i).len() as int)
            =~= chain_of(prefix, suffix, i));
    }
}

/// Shared ancestors: the bone at a prefix path belongs to every group
/// declared with that prefix; and, where no chain element of any other group
/// resolves to the same id, to those groups alone.
pub proof fn lemma_shared_prefix(t: Seq<GroupView>, p: Seq<Seq<char>>)
    ensures
        forall|g: int|
            0 <= g < t.len() && t[g].0 == p ==> #[trigger] groups_of(t, target_id_of(p)).contains(
                g as nat,
            ),
        (forall|g: int, k: int|
            0 <= g < t.len() && t[g].0 != p && 0 <= k <= t[g].1.len() ==> #[trigger] chain_id(
                t,
                g,
                k,
            ) != target_id_of(p)) ==> groups_of(t, target_id_of(p)) == Set::new(
            |g: nat| g < t.len() && t[g as int].0 == p,
        ),
{
    assert forall|g: int| 0 <= g < t.len() && t[g].0 == p implies #[trigger] groups_of(
        t,
        target_id_of(p),
    ).contains(g as nat) by {
        assert(chain_of(t[g].0, t[g].1, 0) =~= p);
        assert(chain_id(t, g, 0) == target_id_of(p));
        assert(chains_of(t)[g][0] == target_id_of(p));
    }
    if forall|g: int, k: int|
        0 <= g < t.len() && t[g].0 != p && 0 <= k <= t[g].1.len() ==> #[trigger] chain_id(t, g, k)
            != target_id_of(p) {
        assert(groups_of(t, target_id_of(p)) =~= Set::new(
            |g: nat| g < t.len() && t[g as int].0 == p,
        )) by {
            assert forall|g: nat| #[trigger] groups_of(t, target_id_of(p)).contains(g) implies g
                < t.len() && t[g as int].0 == p by {
                let k = choose|k: int|
                    0 <= k < chains_of(t)[g as int].len() && #[trigger] chains_of(t)[g as int][k]
                        == target_id_of(p);
                assert(chains_of(t)[g as int][k] == chain_id(t, g as int, k));
            }
            assert forall|g: nat| g < t.len() && t[g as int].0 == p implies groups_of(
                t,
                target_id_of(p),
            ).contains(g) by {
                assert(chain_of(t[g as int].0, t[g as int].1, 0) =~= p);
                assert(chain_id(t, g as int, 0) == target_id_of(p));
                assert(chains_of(t)[g as int][0] == target_id_of(p));
            }
        }
    }
}

} // verus!
