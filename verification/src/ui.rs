use vstd::prelude::*;

verus! {

/// Where a snackbar appears.
#[derive(Clone, Copy, PartialEq, Eq, Debug, Structural)]
pub enum SnackbarPosition {
    Left,
    Center,
    Right,
}

/// The CSS class name of each snackbar position.
pub open spec fn spec_snackbar_class(position: SnackbarPosition) -> Seq<char> {
    match position {
        SnackbarPosition::Left => "left"@,
        SnackbarPosition::Center => "center"@,
        SnackbarPosition::Right => "right"@,
    }
}

impl SnackbarPosition {
    /// The CSS class name that the position is rendered with.
    pub fn to_string(&self) -> (r: String)
        ensures
            r@ == spec_snackbar_class(*self),
    {
        match self {
            SnackbarPosition::Left => "left".to_owned(),
            SnackbarPosition::Center => "center".to_owned(),
            SnackbarPosition::Right => "right".to_owned(),
        }
    }
}

/// The position of a snackbar whose properties name none.
pub fn default_snackbar_position() -> (r: SnackbarPosition)
    ensures
        r == SnackbarPosition::Left,
{
    SnackbarPosition::Left
}

/// Properties of a snackbar: where it shows and what it says.
pub struct SnackbarProps {
    pub position: SnackbarPosition,
    pub message: String,
}

impl SnackbarProps {
    /// Properties with the default position.
    pub fn new(message: String) -> (r: Self)
        ensures
            r.position == SnackbarPosition::Left,
            r.message == message,
    {
        SnackbarProps { position: default_snackbar_position(), message }
    }
}

/// Where a tooltip appears relative to its anchor.
#[derive(Clone, Copy, PartialEq, Eq, Debug, Structural)]
pub enum TooltipPosition {
    Above,
    Below,
    Left,
    Right,
}

/// The CSS class name of each tooltip position.
pub open spec fn spec_tooltip_class(position: TooltipPosition) -> Seq<char> {
    match position {
        TooltipPosition::Above => "above"@,
        TooltipPosition::Below => "below"@,
        TooltipPosition::Left => "left"@,
        TooltipPosition::Right => "right"@,
    }
}

impl TooltipPosition {
    /// The CSS class name that the position is rendered with.
    pub fn class_name(self) -> (r: &'static str)
        ensures
            r@ == spec_tooltip_class(self),
    {
        match self {
            TooltipPosition::Above => "above",
            TooltipPosition::Below => "below",
            TooltipPosition::Left => "left",
            TooltipPosition::Right => "right",
        }
    }
}

/// Properties of the editor component (it takes none).
#[derive(PartialEq, Eq, Default, Debug, Structural)]
pub struct EditorProps {}

/// How a mode presents itself in the toolbar.
pub struct ModeProps {
    pub icon: &'static str,
    pub tooltip: &'static str,
}

} // verus!
