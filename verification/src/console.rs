//! State of the console window: its open flag and the bytes received so far
//! from the simulation's output relay.

use vstd::prelude::*;

verus! {

/// Console window state.
#[derive(Default)]
pub struct Console {
    /// Is the window open or not.
    pub open: bool,
    /// Every byte received from the output relay, in arrival order.
    pub buffer: Vec<u8>,
}

impl Console {
    /// Open the window.
    pub fn open(&mut self)
        ensures
            final(self).open == true,
            final(self).buffer@ == old(self).buffer@,
    {
        self.open = true;
    }

    /// Append a polled byte, if one arrived, to the console's buffer.
    pub fn receive_byte(&mut self, new_byte: Option<u8>)
        ensures
            final(self).open == old(self).open,
            new_byte matches Some(b) ==> final(self).buffer@ == old(self).buffer@.push(b),
            new_byte is None ==> final(self).buffer@ == old(self).buffer@,
    {
        if let Some(b) = new_byte {
            self.buffer.push(b);
        }
    }
}

} // verus!
