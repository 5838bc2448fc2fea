//! The mask groups of the blocky humanoid rig: head, the upper and lower
//! halves of each arm and leg, and the upper body.
use vstd::prelude::*;
use crate::bone_path::{split_on, PATH_SEPARATOR};
use crate::mask_table::{GroupView, MaskGroupTable};

verus! {

/// The group of a written `(prefix, suffix)` pair.
pub open spec fn written_group(prefix: &str, suffix: &str) -> GroupView {
    (split_on(prefix@, PATH_SEPARATOR), split_on(suffix@, PATH_SEPARATOR))
}

/// The humanoid table, one group per body part, in this order: head, right
/// arm upper, right arm lower, left arm upper, left arm lower, right leg
/// upper, right leg lower, left leg upper, left leg lower, upper body.
pub fn humanoid_table() -> (t: MaskGroupTable)
    ensures
        t.wf(),
        t@ == seq![
            written_group("Body", "Head"),
            written_group("Body", "Right Arm Upper"),
            written_group("Body/Right Arm Upper", "Right Arm Lower"),
            written_group("Body", "Left Arm Upper"),
            written_group("Body/Left Arm Upper", "Left Arm Lower"),
            written_group("Body/Body Lower", "Right Leg Upper"),
            written_group("Body/Body Lower/Right Leg Upper", "Right Leg Lower"),
            written_group("Body/Body Lower", "Left Leg Upper"),
            written_group("Body/Body Lower/Left Leg Upper", "Left Leg Lower"),
            written_group("Body", "Body Upper"),
        ],
{
    let paths: [(&str, &str); 10] = [
        ("Body", "Head"),
        ("Body", "Right Arm Upper"),
        ("Body/Right Arm Upper", "Right Arm Lower"),
        ("Body", "Left Arm Upper"),
        ("Body/Left Arm Upper", "Left Arm Lower"),
        ("Body/Body Lower", "Right Leg Upper"),
        ("Body/Body Lower/Right Leg Upper", "Right Leg Lower"),
        ("Body/Body Lower", "Left Leg Upper"),
        ("Body/Body Lower/Left Leg Upper", "Left Leg Lower"),
        ("Body", "Body Upper"),
    ];
    let t = MaskGroupTable::from_paths(&paths).unwrap();
    assert(t@ =~= seq![
        written_group("Body", "Head"),
        written_group("Body", "Right Arm Upper"),
        written_group("Body/Right Arm Upper", "Right Arm Lower"),
        written_group("Body", "Left Arm Upper"),
        written_group("Body/Left Arm Upper", "Left Arm Lower"),
        written_group("Body/Body Lower", "Right Leg Upper"),
        written_group("Body/Body Lower/Right Leg Upper", "Right Leg Lower"),
        written_group("Body/Body Lower", "Left Leg Upper"),
        written_group("Body/Body Lower/Left Leg Upper", "Left Leg Lower"),
        written_group("Body", "Body Upper"),
    ]);
    t
}

} // verus!
