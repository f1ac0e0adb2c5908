//! State of the instruction input window: its open flag, font step and the
//! hexadecimal text typed so far.

use vstd::prelude::*;

verus! {

/// Instruction input window state.
pub struct DecodeInstr {
    /// Is the window open or not.
    pub window_open: bool,
    pub font_size: usize,
    /// The instruction typed as hexadecimal text.
    pub instr_hex: String,
}

impl Default for DecodeInstr {
    /// A window that starts open with empty input.
    fn default() -> (d: DecodeInstr)
        ensures
            d.window_open == true,
            d.font_size == 0,
            d.instr_hex@ =~= Seq::<char>::empty(),
    {
        DecodeInstr { window_open: true, font_size: 0, instr_hex: String::new() }
    }
}

impl DecodeInstr {
    /// Open the window.
    pub fn open(&mut self)
        ensures
            final(self).window_open == true,
            final(self).font_size == old(self).font_size,
            final(self).instr_hex == old(self).instr_hex,
    {
        self.window_open = true;
    }
}

} // verus!
