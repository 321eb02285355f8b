//! Conversion of platform input values into the toolkit's own.
use vstd::prelude::*;

verus! {

/// The Linux input code of the left mouse button.
pub const BTN_LEFT: u32 = 0x110;
/// The Linux input code of the right mouse button.
pub const BTN_RIGHT: u32 = 0x111;
/// The Linux input code of the middle mouse button.
pub const BTN_MIDDLE: u32 = 0x112;
/// The Linux input code of the side (back) mouse button.
pub const BTN_SIDE: u32 = 0x113;
/// The Linux input code of the extra (forward) mouse button.
pub const BTN_EXTRA: u32 = 0x114;

/// A mouse button.
#[derive(Debug, Clone, Copy, PartialEq, Eq, Structural)]
pub enum MouseButton {
    Left,
    Right,
    Middle,
    Back,
    Forward,
    Other(u16),
}

/// The button a platform button code stands for; codes that do not fit in
/// 16 bits have none.
pub open spec fn button_of(button: u32) -> Option<MouseButton> {
    if button == BTN_LEFT {
        Some(MouseButton::Left)
    } else if button == BTN_RIGHT {
        Some(MouseButton::Right)
    } else if button == BTN_MIDDLE {
        Some(MouseButton::Middle)
    } else if button == BTN_SIDE {
        Some(MouseButton::Back)
    } else if button == BTN_EXTRA {
        Some(MouseButton::Forward)
    } else if button <= u16::MAX {
        Some(MouseButton::Other(button as u16))
    } else {
        None
    }
}

/// Converts a platform pointer button code.
pub fn pointer_button_to_native(button: u32) -> (r: Option<MouseButton>)
    ensures
        r == button_of(button),
{
    if button == BTN_LEFT {
        Some(MouseButton::Left)
    } else if button == BTN_RIGHT {
        Some(MouseButton::Right)
    } else if button == BTN_MIDDLE {
        Some(MouseButton::Middle)
    } else if button == BTN_SIDE {
        Some(MouseButton::Back)
    } else if button == BTN_EXTRA {
        Some(MouseButton::Forward)
    } else if button <= 0xffff {
        Some(MouseButton::Other(button as u16))
    } else {
        None
    }
}

/// The modifier keys as the seat reports them.
#[derive(Debug, Clone, Copy, PartialEq, Eq, Structural, Default)]
pub struct SeatModifiers {
    pub ctrl: bool,
    pub alt: bool,
    pub shift: bool,
    pub caps_lock: bool,
    pub logo: bool,
    pub num_lock: bool,
}

/// The modifier keys the toolkit tracks.
#[derive(Debug, Clone, Copy, PartialEq, Eq, Structural, Default)]
pub struct Modifiers {
    pub shift: bool,
    pub control: bool,
    pub alt: bool,
    pub logo: bool,
}

/// Converts the seat's modifiers; the lock keys have no counterpart.
pub fn modifiers_to_native(mods: SeatModifiers) -> (r: Modifiers)
    ensures
        r == (Modifiers { shift: mods.shift, control: mods.ctrl, alt: mods.alt, logo: mods.logo }),
{
    let mut native = Modifiers { shift: false, control: false, alt: false, logo: false };
    if mods.alt {
        native.alt = true;
    }
    if mods.ctrl {
        native.control = true;
    }
    if mods.logo {
        native.logo = true;
    }
    if mods.shift {
        native.shift = true;
    }
    native
}

/// The exit code for a run loop that failed: the OS error code where the
/// failure carried one, else 1.
pub fn raw_os_err(raw_os_error: Option<i32>) -> (r: i32)
    ensures
        r == match raw_os_error {
            Some(c) => c,
            None => 1,
        },
{
    match raw_os_error {
        Some(c) => c,
        None => 1,
    }
}

} // verus!
