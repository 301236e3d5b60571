use vstd::prelude::*;

use crate::grid::Grid;
use crate::style::InformationLayer;

verus! {

/// The tools that a mode of the city editor runs.
#[derive(Clone, Copy, PartialEq, Eq, Debug, Structural)]
pub enum SystemKind {
    CreateStreet,
    CreateFreeFormStreet,
    DeleteStreet,
    CreateDistrict,
    DeleteDistrict,
    MoveControl,
    BoxSelect,
}

/// The tools of each mode: 1 draws streets, 2 and 5 draw freeform streets,
/// 3 deletes streets, 4 creates districts, 6 deletes districts, 7 moves and
/// selects, 8 selects; any other mode runs no tool.
pub open spec fn spec_mode_systems(mode: u32) -> Seq<SystemKind> {
    if mode == 1 {
        seq![SystemKind::CreateStreet]
    } else if mode == 2 || mode == 5 {
        seq![SystemKind::CreateFreeFormStreet]
    } else if mode == 3 {
        seq![SystemKind::DeleteStreet]
    } else if mode == 4 {
        seq![SystemKind::CreateDistrict]
    } else if mode == 6 {
        seq![SystemKind::DeleteDistrict]
    } else if mode == 7 {
        seq![SystemKind::MoveControl, SystemKind::BoxSelect]
    } else if mode == 8 {
        seq![SystemKind::BoxSelect]
    } else {
        seq![]
    }
}

/// The modes that the editor knows.
pub open spec fn known_mode(mode: u32) -> bool {
    1 <= mode <= 8
}

/// The tools of a mode.
pub fn systems_for_mode(mode: u32) -> (r: Vec<SystemKind>)
    ensures
        r@ == spec_mode_systems(mode),
{
    let mut r: Vec<SystemKind> = Vec::new();
    if mode == 1 {
        r.push(SystemKind::CreateStreet);
    } else if mode == 2 || mode == 5 {
        r.push(SystemKind::CreateFreeFormStreet);
    } else if mode == 3 {
        r.push(SystemKind::DeleteStreet);
    } else if mode == 4 {
        r.push(SystemKind::CreateDistrict);
    } else if mode == 6 {
        r.push(SystemKind::DeleteDistrict);
    } else if mode == 7 {
        r.push(SystemKind::MoveControl);
        r.push(SystemKind::BoxSelect);
    } else if mode == 8 {
        r.push(SystemKind::BoxSelect);
    }
    assert(r@ =~= spec_mode_systems(mode));
    r
}

/// `i` is the first position of the debug layer.
pub open spec fn first_debug(layers: Seq<InformationLayer>, i: int) -> bool {
    &&& 0 <= i < layers.len()
    &&& layers[i] == InformationLayer::Debug
    &&& forall|j: int| 0 <= j < i ==> layers[j] != InformationLayer::Debug
}

/// The layers after the debug layer was switched on or off: switching on
/// adds it unless it is there; switching off removes its first occurrence.
pub open spec fn spec_set_debug(layers: Seq<InformationLayer>, enable: bool) -> Seq<InformationLayer> {
    if enable {
        if layers.contains(InformationLayer::Debug) {
            layers
        } else {
            layers.push(InformationLayer::Debug)
        }
    } else if layers.contains(InformationLayer::Debug) {
        layers.remove(choose|i: int| first_debug(layers, i))
    } else {
        layers
    }
}

/// The view of the map: its offset in pixels, and whether it follows the
/// mouse (while the middle button is held).
pub struct Camera {
    pub x: i32,
    pub y: i32,
    pub active: bool,
}

impl Default for Camera {
    /// At the origin, not following the mouse.
    fn default() -> (r: Self)
        ensures
            r.x == 0 && r.y == 0 && !r.active,
    {
        Camera { x: 0, y: 0, active: false }
    }
}

/// The mouse button that moves the camera: the middle one.
pub const CAMERA_BUTTON: u32 = 1;

/// The settings and tools of the city editor: the extra layers drawn, what
/// is rendered, the active tools, the grid and the camera. The map itself,
/// its geometry and the drawing surface are kept by the application.
pub struct Editor {
    pub additional_information_layers: Vec<InformationLayer>,
    pub render_intersections: bool,
    pub render_streets: bool,
    pub active_systems: Vec<SystemKind>,
    pub grid: Grid,
    pub grid_enabled: bool,
    pub camera: Camera,
}

impl Editor {
    /// No extra layers, intersections and streets rendered, no tool, the
    /// default grid switched off, the camera at the origin.
    pub fn new() -> (r: Self)
        ensures
            r.additional_information_layers@ == Seq::<InformationLayer>::empty(),
            r.render_intersections,
            r.render_streets,
            r.active_systems@ == Seq::<SystemKind>::empty(),
            r.grid.spec_offset() == 200,
            r.grid.spec_subdivisions() == 4,
            !r.grid_enabled,
            r.camera.x == 0 && r.camera.y == 0 && !r.camera.active,
    {
        Editor {
            additional_information_layers: Vec::new(),
            render_intersections: true,
            render_streets: true,
            active_systems: Vec::new(),
            grid: Grid::default(),
            grid_enabled: false,
            camera: Camera::default(),
        }
    }

    /// Switches the debug layer on or off.
    pub fn set_enable_debug_information(&mut self, enable_debug_information: bool)
        ensures
            final(self).additional_information_layers@ == spec_set_debug(
                old(self).additional_information_layers@,
                enable_debug_information,
            ),
            final(self).active_systems@ == old(self).active_systems@,
            final(self).camera == old(self).camera,
    {
        let mut found: Option<usize> = None;
        let mut i: usize = 0;
        let ghost layers = self.additional_information_layers@;
        while i < self.additional_information_layers.len()
            invariant
                layers == self.additional_information_layers@,
                i <= layers.len(),
                found is None ==> forall|j: int| 0 <= j < i ==> layers[j] != InformationLayer::Debug,
                found matches Some(k) ==> k < layers.len() && layers[k as int] == InformationLayer::Debug
                    && forall|j: int| 0 <= j < k ==> layers[j] != InformationLayer::Debug,
            decreases layers.len() - i,
        {
            if found.is_none() && self.additional_information_layers[i] == InformationLayer::Debug {
                found = Some(i);
            }
            i = i + 1;
        }
        match found {
            Some(k) => {
                proof {
                    assert(layers.contains(InformationLayer::Debug));
                    assert(first_debug(layers, k as int));
                    let m = choose|i: int| first_debug(layers, i);
                    if m < k {
                        assert(layers[m] == InformationLayer::Debug);
                    } else if m > k {
                        assert(layers[k as int] == InformationLayer::Debug);
                    }
                    assert(m == k);
                }
                if !enable_debug_information {
                    self.additional_information_layers.remove(k);
                }
            },
            None => {
                assert(!layers.contains(InformationLayer::Debug));
                if enable_debug_information {
                    self.additional_information_layers.push(InformationLayer::Debug);
                }
            },
        }
    }

    /// Replaces the active tools by those of `mode`. Returns whether the
    /// mode is known (an unknown mode leaves no tool active).
    pub fn switch_to_mode(&mut self, mode: u32) -> (r: bool)
        ensures
            r == known_mode(mode),
            final(self).active_systems@ == spec_mode_systems(mode),
            final(self).additional_information_layers@ == old(self).additional_information_layers@,
            final(self).camera == old(self).camera,
    {
        self.active_systems = systems_for_mode(mode);
        1 <= mode && mode <= 8
    }

    /// Shows or hides the grid.
    pub fn set_grid_enabled(&mut self, enabled: bool)
        ensures
            final(self).grid_enabled == enabled,
            final(self).grid.spec_offset() == old(self).grid.spec_offset(),
            final(self).grid.spec_subdivisions() == old(self).grid.spec_subdivisions(),
    {
        self.grid_enabled = enabled;
    }

    /// Sets the distance between two main grid lines.
    pub fn set_grid_offset(&mut self, offset: u32)
        ensures
            final(self).grid.spec_offset() == offset,
            final(self).grid.spec_subdivisions() == old(self).grid.spec_subdivisions(),
            final(self).grid_enabled == old(self).grid_enabled,
    {
        self.grid.set_offset(offset);
    }

    /// Sets the number of grid subdivisions; 0 is taken as 1.
    pub fn set_grid_subdivisions(&mut self, subdivisions: u8)
        ensures
            final(self).grid.spec_subdivisions() == (if subdivisions == 0 { 1 } else { subdivisions }),
            final(self).grid.spec_offset() == old(self).grid.spec_offset(),
            final(self).grid_enabled == old(self).grid_enabled,
    {
        let s = if subdivisions == 0 { 1 } else { subdivisions };
        self.grid.set_subdivisions(s);
    }

    /// Whether intersections are drawn.
    pub fn set_render_intersections(&mut self, render: bool)
        ensures
            final(self).render_intersections == render,
            final(self).render_streets == old(self).render_streets,
    {
        self.render_intersections = render;
    }

    /// Whether streets are drawn.
    pub fn set_render_streets(&mut self, render: bool)
        ensures
            final(self).render_streets == render,
            final(self).render_intersections == old(self).render_intersections,
    {
        self.render_streets = render;
    }

    /// A pressed mouse button: the middle one makes the camera follow the
    /// mouse and goes no further; for any other the result is true, and the
    /// event goes on to the active tools.
    pub fn mouse_down(&mut self, button: u32) -> (r: bool)
        ensures
            r == (button != CAMERA_BUTTON),
            final(self).camera == (if button == CAMERA_BUTTON {
                Camera { active: true, ..old(self).camera }
            } else {
                old(self).camera
            }),
            final(self).active_systems@ == old(self).active_systems@,
    {
        if button == CAMERA_BUTTON {
            self.camera.active = true;
            return false;
        }
        true
    }

    /// A released mouse button: the middle one stops the camera and goes no
    /// further; for any other the result is true, and the event goes on to
    /// the active tools.
    pub fn mouse_up(&mut self, button: u32) -> (r: bool)
        ensures
            r == (button != CAMERA_BUTTON),
            final(self).camera == (if button == CAMERA_BUTTON {
                Camera { active: false, ..old(self).camera }
            } else {
                old(self).camera
            }),
            final(self).active_systems@ == old(self).active_systems@,
    {
        if button == CAMERA_BUTTON {
            self.camera.active = false;
            return false;
        }
        true
    }

    /// A mouse movement by (`dx`, `dy`): a camera that follows the mouse is
    /// moved by it, and the event goes no further; otherwise the result is
    /// true, and the event goes on to the active tools.
    pub fn mouse_move(&mut self, dx: i32, dy: i32) -> (r: bool)
        requires
            old(self).camera.active ==> i32::MIN <= old(self).camera.x + dx <= i32::MAX,
            old(self).camera.active ==> i32::MIN <= old(self).camera.y + dy <= i32::MAX,
        ensures
            r == !old(self).camera.active,
            final(self).camera == (if old(self).camera.active {
                Camera { x: (old(self).camera.x + dx) as i32, y: (old(self).camera.y + dy) as i32, active: true }
            } else {
                old(self).camera
            }),
            final(self).active_systems@ == old(self).active_systems@,
    {
        if self.camera.active {
            self.camera.x = self.camera.x + dx;
            self.camera.y = self.camera.y + dy;
            return false;
        }
        true
    }
}

/// Switching the debug layer on and then off leaves no debug layer where
/// there was at most one, and switching it on twice is switching it on once.
pub proof fn law_debug_layer_toggle(layers: Seq<InformationLayer>)
    requires
        forall|i: int, j: int| 0 <= i < j < layers.len() ==> layers[i] != layers[j],
    ensures
        spec_set_debug(spec_set_debug(layers, true), true) == spec_set_debug(layers, true),
        spec_set_debug(layers, true).contains(InformationLayer::Debug),
        !spec_set_debug(spec_set_debug(layers, true), false).contains(InformationLayer::Debug),
        !spec_set_debug(layers, false).contains(InformationLayer::Debug),
{
    let on = spec_set_debug(layers, true);
    if layers.contains(InformationLayer::Debug) {
        assert(on == layers);
    } else {
        assert(on[layers.len() as int] == InformationLayer::Debug);
        assert(on.contains(InformationLayer::Debug));
    }
    assert forall|i: int, j: int| 0 <= i < j < on.len() implies on[i] != on[j] by {
        if !layers.contains(InformationLayer::Debug) && j == layers.len() {
            assert(on[i] == layers[i]);
            assert(on[j] == InformationLayer::Debug);
            if on[i] == on[j] {
                assert(layers.contains(InformationLayer::Debug));
            }
        }
    }
    lemma_remove_only_debug(on);
    lemma_remove_only_debug(layers);
}

proof fn lemma_remove_only_debug(layers: Seq<InformationLayer>)
    requires
        forall|i: int, j: int| 0 <= i < j < layers.len() ==> layers[i] != layers[j],
    ensures
        !spec_set_debug(layers, false).contains(InformationLayer::Debug),
{
    if layers.contains(InformationLayer::Debug) {
        let k0 = choose|i: int| 0 <= i < layers.len() && layers[i] == InformationLayer::Debug;
        assert(first_debug(layers, k0)) by {
            assert forall|j: int| 0 <= j < k0 implies layers[j] != InformationLayer::Debug by {
                if layers[j] == InformationLayer::Debug {
                    assert(layers[j] == layers[k0]);
                }
            }
        }
        let k = choose|i: int| first_debug(layers, i);
        let r = layers.remove(k);
        if r.contains(InformationLayer::Debug) {
            let m = choose|m: int| 0 <= m < r.len() && r[m] == InformationLayer::Debug;
            if m < k {
                assert(layers[m] == layers[k]);
            } else {
                assert(layers[m + 1] == layers[k]);
            }
        }
    }
}

} // verus!
