use vstd::prelude::*;

verus! {

/// The tool that does nothing: every event is ignored.
pub struct IdleState {}

impl Default for IdleState {
    fn default() -> (r: Self) {
        IdleState {}
    }
}

/// The tool that draws the map, shifted by the camera; the drawing itself
/// is done by the application.
pub struct MapRenderSystem {}

impl MapRenderSystem {
    /// The map renderer.
    pub fn new() -> (r: Self) {
        MapRenderSystem {}
    }
}

} // verus!
