//! Which graphics backend the interface runs on.
use vstd::prelude::*;

verus! {

/// The backend for the interface: a window (`winit`) under Wayland or X11,
/// else bare-metal KMS without a seat.
pub fn display_backend(wayland: bool, x11: bool) -> (res: &'static str)
    ensures
        res@ == (if wayland || x11 {
            "winit"@
        } else {
            "linuxkms-noseat"@
        }),
{
    if wayland {
        "winit"
    } else if x11 {
        "winit"
    } else {
        "linuxkms-noseat"
    }
}

} // verus!
