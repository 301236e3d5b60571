use vstd::prelude::*;

verus! {

/// The button that moves the camera: the middle mouse button.
pub const CAMERA_BUTTON: u32 = 1;

/// Whether the camera follows the mouse. The camera is moved while the
/// middle button is held; its position is kept by the application.
pub struct Camera {
    active: bool,
}

impl View for Camera {
    type V = bool;

    /// Whether the camera follows the mouse.
    closed spec fn view(&self) -> bool {
        self.active
    }
}

impl Camera {
    /// Whether the camera currently follows mouse movements.
    pub fn active(&self) -> (r: bool)
        ensures
            r == self@,
    {
        self.active
    }

    /// Makes the camera follow the mouse, or stop following it.
    pub fn set_active(&mut self, active: bool)
        ensures
            final(self)@ == active,
    {
        self.active = active;
    }

    /// Pressing the middle button activates the camera; any other button
    /// deactivates it.
    pub fn mouse_down(&mut self, button: u32)
        ensures
            final(self)@ == (button == CAMERA_BUTTON),
    {
        self.active = button == CAMERA_BUTTON;
    }

    /// Releasing the middle button deactivates the camera; releasing any
    /// other button leaves it as it is.
    pub fn mouse_up(&mut self, button: u32)
        ensures
            final(self)@ == (old(self)@ && button != CAMERA_BUTTON),
    {
        if self.active && button == CAMERA_BUTTON {
            self.active = false;
        }
    }

    /// Whether a mouse movement moves the camera.
    pub fn follows_mouse(&self) -> (r: bool)
        ensures
            r == self@,
    {
        self.active
    }
}

impl Default for Camera {
    /// An inactive camera.
    fn default() -> (r: Self)
        ensures
            r@ == false,
    {
        Camera { active: false }
    }
}

} // verus!
