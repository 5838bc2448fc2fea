//! Body-part animation masking: bone paths, mask groups, the blend graph
//! plan, target pruning and the per-instance setup sequence.

pub mod bone_path;
pub mod bone_id;
pub mod target_set;
pub mod group_mask;
pub mod mask_table;
pub mod prune;
pub mod blend_graph;
pub mod setup;
pub mod humanoid;
pub mod walk;
