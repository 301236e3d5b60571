use vstd::prelude::*;

verus! {

/// A mouse button, numbered as the DOM numbers them
/// (0 = left, 1 = middle, 2 = right).
#[derive(Copy, Clone, Debug, PartialOrd, PartialEq, Ord, Eq, Hash, Structural)]
pub enum Key {
    Left,
    Middle,
    Right,
    Unknown,
}

/// The button that a DOM button number stands for.
pub open spec fn spec_key_from_code(code: int) -> Key {
    if code == 0 {
        Key::Left
    } else if code == 1 {
        Key::Middle
    } else if code == 2 {
        Key::Right
    } else {
        Key::Unknown
    }
}

impl From<u32> for Key {
    fn from(val: u32) -> (k: Key) {
        match val {
            0 => Key::Left,
            1 => Key::Middle,
            2 => Key::Right,
            _ => Key::Unknown,
        }
    }
}

impl vstd::std_specs::convert::FromSpecImpl<u32> for Key {
    open spec fn obeys_from_spec() -> bool {
        true
    }

    open spec fn from_spec(v: u32) -> Key {
        spec_key_from_code(v as int)
    }
}

impl From<i16> for Key {
    /// A negative number names no button (as a `u32` it would be out of range).
    fn from(val: i16) -> (k: Key) {
        if val < 0 {
            Key::Unknown
        } else {
            Key::from(val as u32)
        }
    }
}

impl vstd::std_specs::convert::FromSpecImpl<i16> for Key {
    open spec fn obeys_from_spec() -> bool {
        true
    }

    open spec fn from_spec(v: i16) -> Key {
        spec_key_from_code(v as int)
    }
}

} // verus!
