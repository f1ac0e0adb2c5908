//! Top-level front-end state: the font-size step shared by all text styles,
//! the settings flag, and the tool windows.

use crate::decode_instr::DecodeInstr;
use crate::instr_decoder::InstrDecoder;
use vstd::prelude::*;

verus! {

/// Largest font step up that is still accepted.
pub const FONT_DELTA_MAX: i32 = 50;

/// Smallest font step down that is still accepted.
pub const FONT_DELTA_MIN: i32 = -5;

/// Application state of the front-end.
pub struct KompusimApp {
    /// Step count applied to the default font size of all text styles.
    pub font_delta: i32,
    pub show_settings: bool,
    pub decode_instr: DecodeInstr,
    pub instr_decoder: InstrDecoder,
}

impl Default for KompusimApp {
    /// Fresh state: no font adjustment, settings closed, windows fresh.
    fn default() -> (a: KompusimApp)
        ensures
            a.font_delta == 0,
            a.show_settings == false,
            a.decode_instr.window_open == true,
            a.instr_decoder.window_open == true,
    {
        KompusimApp {
            font_delta: 0,
            show_settings: false,
            decode_instr: Default::default(),
            instr_decoder: Default::default(),
        }
    }
}

impl KompusimApp {
    /// Take one font step up, bounded above; reports whether the step was
    /// taken so the caller can grow the fonts it owns.
    pub fn increase_font(&mut self) -> (changed: bool)
        ensures
            changed == (old(self).font_delta <= FONT_DELTA_MAX),
            changed ==> final(self).font_delta == old(self).font_delta + 1,
            !changed ==> final(self).font_delta == old(self).font_delta,
            final(self).show_settings == old(self).show_settings,
            final(self).decode_instr == old(self).decode_instr,
            final(self).instr_decoder == old(self).instr_decoder,
    {
        if self.font_delta <= FONT_DELTA_MAX {
            self.font_delta = self.font_delta + 1;
            true
        } else {
            false
        }
    }

    /// Take one font step down, bounded below; reports whether the step was
    /// taken so the caller can shrink the fonts it owns.
    pub fn decrease_font(&mut self) -> (changed: bool)
        ensures
            changed == (old(self).font_delta >= FONT_DELTA_MIN),
            changed ==> final(self).font_delta == old(self).font_delta - 1,
            !changed ==> final(self).font_delta == old(self).font_delta,
            final(self).show_settings == old(self).show_settings,
            final(self).decode_instr == old(self).decode_instr,
            final(self).instr_decoder == old(self).instr_decoder,
    {
        if self.font_delta >= FONT_DELTA_MIN {
            self.font_delta = self.font_delta - 1;
            true
        } else {
            false
        }
    }

    /// Open the settings window.
    pub fn open_settings(&mut self)
        ensures
            final(self).show_settings == true,
            final(self).font_delta == old(self).font_delta,
            final(self).decode_instr == old(self).decode_instr,
            final(self).instr_decoder == old(self).instr_decoder,
    {
        self.show_settings = true;
    }
}

} // verus!
