use vstd::prelude::*;

verus! {

/// Defines how an element is displayed.
pub struct Style {
    /// In pixels. A border width of 0 disables the rendering of the border.
    pub border_width: u32,
    /// Any CSS color value.
    pub border_color: String,
    /// The fill color of an element, any CSS color value.
    pub background_color: String,
}

/// The three styles an element can take, picked by its current state.
pub struct InteractiveElementStyle {
    pub normal: Style,
    pub hover: Style,
    pub selected: Style,
}

/// The state of an element that the user interacts with.
#[derive(Clone, Copy, PartialEq, Eq, Debug, Structural)]
pub enum InteractiveElementState {
    Normal,
    Hover,
    Selected,
}

/// Something that is drawn in a style that depends on its state.
pub trait InteractiveElement {
    fn state(&self) -> InteractiveElementState;

    fn set_state(&mut self, new_state: InteractiveElementState);

    fn style(&self) -> &Style;
}

/// Additional layers that can be drawn on top of the data.
#[derive(Clone, Copy, PartialEq, Eq, Debug, Structural)]
pub enum InformationLayer {
    Debug,
}

/// The axes along which a gizmo moves the selected elements.
#[derive(Clone, Copy, PartialEq, Eq, Debug, Structural)]
pub enum Axis {
    X,
    Y,
    XY,
}

impl InteractiveElementStyle {
    /// The style that belongs to `state`.
    pub fn style_for(&self, state: InteractiveElementState) -> (r: &Style)
        ensures
            r == (match state {
                InteractiveElementState::Normal => &self.normal,
                InteractiveElementState::Hover => &self.hover,
                InteractiveElementState::Selected => &self.selected,
            }),
    {
        match state {
            InteractiveElementState::Normal => &self.normal,
            InteractiveElementState::Hover => &self.hover,
            InteractiveElementState::Selected => &self.selected,
        }
    }
}

impl Default for InteractiveElementStyle {
    /// White-bordered dark elements that turn blue on hover and red when selected.
    fn default() -> (r: Self)
        ensures
            r.normal.border_width == 0,
            r.normal.border_color@ == "#FFFFFF"@,
            r.normal.background_color@ == "#2A2A2B"@,
            r.hover.border_width == 0,
            r.hover.border_color@ == ""@,
            r.hover.background_color@ == "#1e88e5"@,
            r.selected.border_width == 0,
            r.selected.border_color@ == ""@,
            r.selected.background_color@ == "hsl(0, 100%, 50%)"@,
    {
        InteractiveElementStyle {
            normal: Style {
                border_width: 0,
                border_color: "#FFFFFF".to_owned(),
                background_color: "#2A2A2B".to_owned(),
            },
            hover: Style {
                border_width: 0,
                border_color: "".to_owned(),
                background_color: "#1e88e5".to_owned(),
            },
            selected: Style {
                border_width: 0,
                border_color: "".to_owned(),
                background_color: "hsl(0, 100%, 50%)".to_owned(),
            },
        }
    }
}

} // verus!
