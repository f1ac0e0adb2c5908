//! State of the demo-loading window.

use vstd::prelude::*;

verus! {

/// Demo-loading window state.
pub struct LoadDemo {
    /// Is the window open or not.
    pub window_open: bool,
}

impl Default for LoadDemo {
    /// The window starts open.
    fn default() -> (d: LoadDemo)
        ensures
            d.window_open == true,
    {
        LoadDemo { window_open: true }
    }
}

impl LoadDemo {
    /// Open the window.
    pub fn open(&mut self)
        ensures
            final(self).window_open == true,
    {
        self.window_open = true;
    }

    /// A demo was picked: the window closes.
    pub fn demo_chosen(&mut self)
        ensures
            final(self).window_open == false,
    {
        self.window_open = false;
    }
}

} // verus!
