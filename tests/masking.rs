use bevy::animation::AnimationTargetId;
use bevy::prelude::Name;
use mask_groups::blend_graph::{default_clip_masks, BlendGraph, BlendNode, COMBINE_NODE, ROOT_NODE};
use mask_groups::bone_id::{bone_id_of_segments, resolve_bone_path};
use mask_groups::bone_path::split_path;
use mask_groups::group_mask::GroupMask;
use mask_groups::humanoid::humanoid_table;
use mask_groups::mask_table::{MaskAssignment, MaskGroupSpec, MaskGroupTable, TableError};
use mask_groups::prune::{prune_targets, SkeletonNode};
use mask_groups::setup::{step, SetupAction, SetupEvent, SetupPhase};
use mask_groups::target_set::TargetSet;
use mask_groups::walk::HierarchyWalk;

fn strings(names: &[&str]) -> Vec<String> {
    names.iter().map(|n| n.to_string()).collect()
}

fn bevy_id(names: &[&str]) -> u128 {
    let names: Vec<Name> = names.iter().map(|n| Name::new(n.to_string())).collect();
    AnimationTargetId::from_names(names.iter()).0.as_u128()
}

#[test]
fn split_path_segments() {
    assert_eq!(split_path("Body/Right Arm Upper"), strings(&["Body", "Right Arm Upper"]));
    assert_eq!(split_path("Body"), strings(&["Body"]));
    assert_eq!(split_path(""), strings(&[""]));
    assert_eq!(split_path("a//b/"), strings(&["a", "", "b", ""]));
}

#[test]
fn resolve_matches_bevy_ids() {
    let id = resolve_bone_path("Body/Head");
    assert_eq!(id, bevy_id(&["Body", "Head"]));
    assert_eq!(id, bone_id_of_segments(&strings(&["Body", "Head"])));
    assert_ne!(id, resolve_bone_path("Body"));
    assert_ne!(resolve_bone_path("Body"), 0);
}

#[test]
fn resolve_is_deterministic() {
    let table = humanoid_table();
    let a = table.assign();
    let b = table.assign();
    for path in ["Body", "Body/Head", "Body/Body Lower", "Body/Left Arm Upper/Left Arm Lower", "Tail"] {
        let id = resolve_bone_path(path);
        assert_eq!(resolve_bone_path(path), id);
        assert_eq!(a.groups_of(id), b.groups_of(id));
        assert_eq!(a.is_target(id), b.is_target(id));
    }
}

#[test]
fn chain_has_one_id_per_length() {
    let spec = MaskGroupSpec::from_paths("Body/Body Lower/Right Leg Upper", "Right Leg Lower");
    let ids = spec.chain_ids();
    assert_eq!(ids.len(), 2);
    assert_eq!(ids[0], bevy_id(&["Body", "Body Lower", "Right Leg Upper"]));
    assert_eq!(ids[1], bevy_id(&["Body", "Body Lower", "Right Leg Upper", "Right Leg Lower"]));
    assert_eq!(spec.chain_path(0), strings(&["Body", "Body Lower", "Right Leg Upper"]));
    assert_eq!(
        spec.chain_path(1),
        strings(&["Body", "Body Lower", "Right Leg Upper", "Right Leg Lower"])
    );
    let long = MaskGroupSpec::from_paths("Body", "A/B/C");
    let ids = long.chain_ids();
    assert_eq!(ids.len(), 4);
    assert_eq!(ids[3], bevy_id(&["Body", "A", "B", "C"]));
    for k in 0..3 {
        let shorter = long.chain_path(k);
        let longer = long.chain_path(k + 1);
        assert_eq!(longer.len(), shorter.len() + 1);
        assert_eq!(&longer[..shorter.len()], &shorter[..]);
    }
}

#[test]
fn shared_prefix_in_every_group_with_it() {
    let a = humanoid_table().assign();
    // groups 0, 1, 3 and 9 have the prefix "Body"
    assert_eq!(a.groups_of(resolve_bone_path("Body")).bits, 0b10_0000_1011);
    // groups 5 and 7 have the prefix "Body/Body Lower"
    assert_eq!(a.groups_of(resolve_bone_path("Body/Body Lower")).bits, 0b00_1010_0000);
    // group 1 ends at the upper right arm, where group 2 starts
    assert_eq!(a.groups_of(resolve_bone_path("Body/Right Arm Upper")).bits, 0b00_0000_0110);
    assert_eq!(a.groups_of(resolve_bone_path("Body/Head")).bits, 0b00_0000_0001);
    assert_eq!(a.groups_of(resolve_bone_path("Body/Tail")).bits, 0);
    assert!(!a.is_target(resolve_bone_path("Body/Tail")));
}

#[test]
fn register_chains_on_given_ids() {
    let chains: Vec<Vec<u128>> = vec![vec![1, 2], vec![1, 3], vec![4]];
    let a = MaskAssignment::register_chains(&chains);
    assert_eq!(a.groups_of(1).bits, 0b011);
    assert_eq!(a.groups_of(2).bits, 0b001);
    assert_eq!(a.groups_of(3).bits, 0b010);
    assert_eq!(a.groups_of(4).bits, 0b100);
    assert_eq!(a.groups_of(5).bits, 0);
    assert!(a.is_target(3));
    assert!(!a.is_target(5));
    let t = a.targets();
    assert!(t.contains(4));
    assert!(!t.contains(0));
}

#[test]
fn too_many_groups_is_refused() {
    let paths: Vec<(&str, &str)> = (0..65).map(|_| ("Body", "Head")).collect();
    assert_eq!(MaskGroupTable::from_paths(&paths).err(), Some(TableError::TooManyGroups));
    assert!(MaskGroupTable::from_paths(&paths[..64]).is_ok());
    assert_eq!(MaskGroupTable::from_paths(&[]).unwrap().len(), 0);
    let groups = vec![MaskGroupSpec::from_paths("Body", "Head")];
    assert_eq!(MaskGroupTable::new(groups).unwrap().len(), 1);
}

#[test]
fn humanoid_table_layout() {
    let t = humanoid_table();
    assert_eq!(t.len(), 10);
    assert_eq!(t.group(2).prefix, strings(&["Body", "Right Arm Upper"]));
    assert_eq!(t.group(2).suffix, strings(&["Right Arm Lower"]));
    assert_eq!(t.group(9).suffix, strings(&["Body Upper"]));
}

#[test]
fn group_mask_bits() {
    assert_eq!(GroupMask::empty().bits, 0);
    assert_eq!(GroupMask::first_groups(6).bits, 0x3f);
    assert_eq!(GroupMask::first_groups(64).bits, u64::MAX);
    assert_eq!(GroupMask::first_groups(0).bits, 0);
    let m = GroupMask::empty().with_group(3).with_group(63);
    assert!(m.contains(3));
    assert!(m.contains(63));
    assert!(!m.contains(4));
    assert_eq!(m.bits, (1u64 << 63) | 8);
    assert_eq!(GroupMask::first_groups(10).excluded_bits(10), 0);
    assert_eq!(GroupMask::empty().excluded_bits(6), 0x3f);
    assert_eq!(m.excluded_bits(5), 0b10111);
}

fn scenario() -> (MaskAssignment, Vec<SkeletonNode>) {
    let table = MaskGroupTable::from_paths(&[("Body", "Head"), ("Body", "Right Arm Upper")]).unwrap();
    let a = table.assign();
    let nodes = ["Body", "Body/Head", "Body/Right Arm Upper", "Body/Left Arm Upper"]
        .iter()
        .map(|p| SkeletonNode { id: resolve_bone_path(p), bound: true })
        .collect();
    (a, nodes)
}

#[test]
fn two_group_scenario() {
    let (a, mut nodes) = scenario();
    assert!(a.is_target(resolve_bone_path("Body")));
    assert!(a.is_target(resolve_bone_path("Body/Head")));
    assert!(a.is_target(resolve_bone_path("Body/Right Arm Upper")));
    assert!(!a.is_target(resolve_bone_path("Body/Left Arm Upper")));
    assert_eq!(a.groups_of(resolve_bone_path("Body")).bits, 0b11);
    let removed = prune_targets(&mut nodes, a.targets());
    assert_eq!(removed, vec![3]);
    assert_eq!(nodes.iter().map(|n| n.bound).collect::<Vec<_>>(), vec![true, true, true, false]);
}

#[test]
fn pruning_twice_changes_nothing() {
    let (a, mut nodes) = scenario();
    nodes.push(SkeletonNode { id: resolve_bone_path("Body/Tail"), bound: false });
    prune_targets(&mut nodes, a.targets());
    let once = nodes.clone();
    let removed = prune_targets(&mut nodes, a.targets());
    assert!(removed.is_empty());
    assert_eq!(nodes, once);
    assert!(a.is_target(resolve_bone_path("Body")));
}

#[test]
fn pruning_keeps_only_targets_bound() {
    let mut targets = TargetSet::new();
    assert!(targets.insert(7));
    assert!(!targets.insert(7));
    let mut nodes = vec![
        SkeletonNode { id: 7, bound: true },
        SkeletonNode { id: 8, bound: true },
        SkeletonNode { id: 9, bound: false },
        SkeletonNode { id: 8, bound: true },
    ];
    let removed = prune_targets(&mut nodes, &targets);
    assert_eq!(removed, vec![1, 3]);
    for n in &nodes {
        assert!(!n.bound || targets.contains(n.id));
    }
    let mut empty: Vec<SkeletonNode> = Vec::new();
    assert!(prune_targets(&mut empty, &targets).is_empty());
}

#[test]
fn graph_shape_for_four_clips() {
    let masks = default_clip_masks(4, 10);
    assert_eq!(masks.len(), 4);
    assert!(masks.iter().all(|m| m.bits == 0x3ff));
    let g = BlendGraph::build(&masks);
    assert_eq!(g.len(), 6);
    assert_eq!(g.node(ROOT_NODE), BlendNode::Root);
    assert_eq!(g.node(COMBINE_NODE), BlendNode::Combine { parent: ROOT_NODE });
    for c in 0..4 {
        assert_eq!(
            g.node(c + 2),
            BlendNode::Clip { parent: COMBINE_NODE, clip: c, mask: masks[c] }
        );
    }
    assert_eq!(g.clip_nodes(), vec![2, 3, 4, 5]);
    let empty = BlendGraph::build(&Vec::new());
    assert_eq!(empty.len(), 2);
    assert!(empty.clip_nodes().is_empty());
}

#[test]
fn skeleton_ready_twice_builds_once() {
    let (p, a) = step(SetupPhase::Unloaded, SetupEvent::SkeletonReady);
    assert_eq!(a, SetupAction::BuildGraph);
    let (p2, a2) = step(p, SetupEvent::SkeletonReady);
    assert_eq!(a2, SetupAction::Nothing);
    assert_eq!(p2, SetupPhase::SkeletonReady);
}

#[test]
fn setup_runs_in_order() {
    let mut phase = SetupPhase::Unloaded;
    let mut actions = Vec::new();
    for e in [
        SetupEvent::GraphAttached,
        SetupEvent::SkeletonReady,
        SetupEvent::GraphAttached,
        SetupEvent::SkeletonReady,
        SetupEvent::TargetsPruned,
        SetupEvent::PlaybackStarted,
    ] {
        let (p, a) = step(phase, e);
        phase = p;
        actions.push(a);
    }
    assert_eq!(phase, SetupPhase::Playing);
    assert_eq!(
        actions,
        vec![
            SetupAction::Nothing,
            SetupAction::BuildGraph,
            SetupAction::PruneTargets,
            SetupAction::Nothing,
            SetupAction::StartPlayback,
            SetupAction::Nothing,
        ]
    );
}

#[test]
fn masks_overlap_on_a_shared_group() {
    let arms = GroupMask::empty().with_group(1).with_group(2);
    let right_arm_upper = GroupMask::empty().with_group(2);
    let head = GroupMask::empty().with_group(0);
    assert!(arms.overlaps(&right_arm_upper));
    assert!(!arms.overlaps(&head));
    assert!(!GroupMask::empty().overlaps(&GroupMask::first_groups(64)));
    assert!(GroupMask::first_groups(64).overlaps(&GroupMask::empty().with_group(63)));
}

#[test]
fn walk_visits_parents_first_depth_first() {
    // 1 has children 2 and 5; 2 has children 3 and 4; 5 has child 6
    let children = |n: u64| -> Vec<u64> {
        match n {
            1 => vec![2, 5],
            2 => vec![3, 4],
            5 => vec![6],
            _ => vec![],
        }
    };
    let mut walk = HierarchyWalk::new(1);
    let mut order = Vec::new();
    while let Some(n) = walk.next_node() {
        order.push(n);
        walk.push_children(&children(n));
    }
    assert_eq!(order, vec![1, 2, 3, 4, 5, 6]);
    assert_eq!(walk.next_node(), None);
}
