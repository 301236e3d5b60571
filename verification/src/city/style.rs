use vstd::prelude::*;
use rand::Rng;

use crate::style::Style;

verus! {

/// The state of a map element that the user interacts with.
#[derive(Clone, Copy, PartialEq, Eq, Debug, Structural)]
pub enum InteractiveElementSystem {
    Normal,
    Hover,
    Selected,
}

/// A map element drawn in a style that depends on its state.
pub trait InteractiveElement {
    fn state(&self) -> InteractiveElementSystem;

    fn set_state(&mut self, new_state: InteractiveElementSystem);

    fn style(&self) -> &Style;
}

/// The three styles of a map element, picked by its state.
pub struct InteractiveElementStyle {
    pub normal: Style,
    pub hover: Style,
    pub selected: Style,
}

impl InteractiveElementStyle {
    /// The style that belongs to `state`.
    pub fn style_for(&self, state: InteractiveElementSystem) -> (r: &Style)
        ensures
            r == (match state {
                InteractiveElementSystem::Normal => &self.normal,
                InteractiveElementSystem::Hover => &self.hover,
                InteractiveElementSystem::Selected => &self.selected,
            }),
    {
        match state {
            InteractiveElementSystem::Normal => &self.normal,
            InteractiveElementSystem::Hover => &self.hover,
            InteractiveElementSystem::Selected => &self.selected,
        }
    }
}

impl Default for InteractiveElementStyle {
    /// Dark elements with a white border of one pixel, blue on hover and red
    /// when selected.
    fn default() -> (r: Self)
        ensures
            r.normal.border_width == 1,
            r.normal.border_color@ == "#FFFFFF"@,
            r.normal.background_color@ == "#2A2A2B"@,
            r.hover.border_width == 0,
            r.hover.border_color@ == ""@,
            r.hover.background_color@ == "#1e88e5"@,
            r.selected.border_width == 0,
            r.selected.border_color@ == ""@,
            r.selected.background_color@ == "hsl(0, 100%, 50%)"@,
    {
        InteractiveElementStyle {
            normal: Style {
                border_width: 1,
                border_color: "#FFFFFF".to_owned(),
                background_color: "#2A2A2B".to_owned(),
            },
            hover: Style {
                border_width: 0,
                border_color: "".to_owned(),
                background_color: "#1e88e5".to_owned(),
            },
            selected: Style {
                border_width: 0,
                border_color: "".to_owned(),
                background_color: "hsl(0, 100%, 50%)".to_owned(),
            },
        }
    }
}

/// The style of a district: translucent blue with a red border color (its
/// border width is 0, so no border is drawn), blue on hover and red when
/// selected.
pub fn district_style() -> (r: InteractiveElementStyle)
    ensures
        r.normal.border_width == 0,
        r.normal.border_color@ == "#FF0000"@,
        r.normal.background_color@ == "rgba(30, 136, 229, 0.4)"@,
        r.hover.border_width == 0,
        r.hover.border_color@ == ""@,
        r.hover.background_color@ == "#1e88e5"@,
        r.selected.border_width == 0,
        r.selected.border_color@ == ""@,
        r.selected.background_color@ == "hsl(0, 100%, 50%)"@,
{
    InteractiveElementStyle {
        normal: Style {
            border_width: 0,
            border_color: "#FF0000".to_owned(),
            background_color: "rgba(30, 136, 229, 0.4)".to_owned(),
        },
        hover: Style {
            border_width: 0,
            border_color: "".to_owned(),
            background_color: "#1e88e5".to_owned(),
        },
        selected: Style {
            border_width: 0,
            border_color: "".to_owned(),
            background_color: "hsl(0, 100%, 50%)".to_owned(),
        },
    }
}


/// Draws a number below `bound` from `rand::thread_rng().gen_range(0..bound)`.
/// Trusted: rand documents that `gen_range` returns a value of the range
/// and panics only on an empty range, which `requires` excludes; which value
/// is drawn is left open.
#[verifier::external_body]
fn random_below(bound: u8) -> (r: u8)
    requires
        bound > 0,
    ensures
        r < bound,
{
    rand::thread_rng().gen_range(0..bound)
}

/// A random color for a street being drawn: red, green and blue each drawn
/// from `0..255`.
pub fn random_street_color() -> (c: (u8, u8, u8))
    ensures
        c.0 < 255 && c.1 < 255 && c.2 < 255,
{
    let r = random_below(255);
    let g = random_below(255);
    let b = random_below(255);
    (r, g, b)
}

} // verus!
