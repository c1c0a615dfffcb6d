use vstd::prelude::*;

pub mod tetris;
pub mod undo;
pub mod voxel;
pub mod viewport;
pub mod text;
pub mod gizmo;
pub mod script_presets;
pub mod terrain;
pub mod scene;
pub mod asset_browser;
pub mod texture;
pub mod batching;
pub mod sprite_editor;
pub mod tetris_limits;
pub mod tetris_laws;
pub mod frame_graph_overlay;
pub mod hierarchy;

verus! {

/// The shadow pass renders every entity that has a mesh: shadow casters outside
/// the camera frustum can still cast shadows into it, so no culling applies.
pub fn should_cast_shadow() -> (r: bool)
    ensures
        r,
{
    true
}

} // verus!
