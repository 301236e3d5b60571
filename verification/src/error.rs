use vstd::prelude::*;

verus! {

/// A key as the DOM names it in keyboard events (`"Control"`, `"z"`, ...).
pub type KeyName = String;

/// A sequence of keys that triggers an action when pressed in order.
pub type Shortkey = Vec<KeyName>;

/// Why the editor refused a registration.
#[derive(Debug)]
pub enum EditorError {
    /// The shortkey is already registered by some plugin.
    ShortkeyExists { shortkey: Shortkey },
    /// No toolbar has this id; add the toolbar before adding buttons to it.
    ToolbarDoesNotExists { id: &'static str },
    /// A toolbar with this id is already registered.
    ToolbarExists { id: &'static str },
}

} // verus!
