//! The state of the layer-resizing dialog.
use vstd::prelude::*;

verus! {

/// The size asked for in the resize dialog, and the dialog's state.
#[derive(Debug, Clone, Copy)]
pub struct ResizeSettings {
    pub new_width: u16,
    pub new_height: u16,
    pub reset_needed: bool,
    pub window_open: bool,
}

impl Default for ResizeSettings {
    fn default() -> (r: Self)
        ensures
            r.new_width == 0,
            r.new_height == 0,
            !r.reset_needed,
            !r.window_open,
    {
        ResizeSettings { new_width: 0, new_height: 0, reset_needed: false, window_open: false }
    }
}

} // verus!
