//! Stable identifiers of bones, derived from their name paths.
use vstd::prelude::*;
use crate::bone_path::{names_view, split_on, split_path, PATH_SEPARATOR};
use bevy::animation::AnimationTargetId;
use bevy::prelude::Name;

verus! {

/// The identifier of a bone, as the 128 bits of its animation-target id.
pub type BoneId = u128;

/// The animation-target id that bevy derives from a sequence of bone names.
pub uninterp spec fn target_id_of(names: Seq<Seq<char>>) -> u128;

/// Relies on `bevy::animation::AnimationTargetId::from_names`, which hashes
/// the names and nothing else, read back through `Uuid::as_u128`.
#[verifier::external_body]
fn animation_target_id(names: &Vec<String>) -> (r: u128)
    ensures
        r == target_id_of(names_view(names@)),
{
    let names: Vec<Name> = names.iter().map(|n| Name::new(n.clone())).collect();
    AnimationTargetId::from_names(names.iter()).0.as_u128()
}

/// The id of the bone whose path has the given segments.
pub fn bone_id_of_segments(segments: &Vec<String>) -> (id: BoneId)
    ensures
        id == target_id_of(names_view(segments@)),
{
    animation_target_id(segments)
}

/// The id of the bone at a written path such as `"Body/Head"`.
pub fn resolve_bone_path(path: &str) -> (id: BoneId)
    ensures
        id == target_id_of(split_on(path@, PATH_SEPARATOR)),
{
    let segments = split_path(path);
    bone_id_of_segments(&segments)
}

} // verus!
