//! State of the instruction-decoder window: the hexadecimal input box, the
//! decoded assembly text, and the conversion of the typed hexadecimal string
//! to the 32-bit instruction word it denotes.

use vstd::prelude::*;

verus! {

/// `c` is a hexadecimal digit (`0`-`9`, `a`-`f` or `A`-`F`).
pub open spec fn is_hex_digit(c: char) -> bool {
    (0x30 <= c as u32 <= 0x39) || (0x61 <= c as u32 <= 0x66) || (0x41 <= c as u32 <= 0x46)
}

/// Numeric value of a hexadecimal digit (0 on anything else).
pub open spec fn hex_digit_val(c: char) -> nat {
    if 0x30 <= c as u32 <= 0x39 {
        (c as u32 - 0x30) as nat
    } else if 0x61 <= c as u32 <= 0x66 {
        (c as u32 - 0x61 + 10) as nat
    } else if 0x41 <= c as u32 <= 0x46 {
        (c as u32 - 0x41 + 10) as nat
    } else {
        0
    }
}

/// Value of a string of hexadecimal digits, most significant first.
pub open spec fn hex_digits_val(s: Seq<char>) -> nat
    decreases s.len(),
{
    if s.len() == 0 {
        0
    } else {
        hex_digits_val(s.drop_last()) * 16 + hex_digit_val(s.last())
    }
}

/// Every character of `s` is a hexadecimal digit.
pub open spec fn all_hex_digits(s: Seq<char>) -> bool {
    forall|i: int| 0 <= i < s.len() ==> is_hex_digit(#[trigger] s[i])
}

/// `s` with every leading repetition of the two characters `0x` removed.
pub open spec fn strip_hex_prefixes(s: Seq<char>) -> Seq<char>
    decreases s.len(),
{
    if s.len() >= 2 && s[0] == '0' && s[1] == 'x' {
        strip_hex_prefixes(s.skip(2))
    } else {
        s
    }
}

/// `s` with one leading plus sign removed, if present.
pub open spec fn strip_sign(s: Seq<char>) -> Seq<char> {
    if s.len() > 0 && s[0] == '+' {
        s.skip(1)
    } else {
        s
    }
}

/// What converting a typed hexadecimal string yields: leading `0x` markers
/// and one optional `+` are stripped; what remains must be one or more
/// hexadecimal digits whose value fits 32 bits, and any malformed or
/// overflowing input yields 0.
pub open spec fn parse_hex_u32(s: Seq<char>) -> u32 {
    let t = strip_sign(strip_hex_prefixes(s));
    if t.len() > 0 && all_hex_digits(t) && hex_digits_val(t) <= u32::MAX {
        hex_digits_val(t) as u32
    } else {
        0u32
    }
}

/// Convert a hexadecimal string (for example "0x9393") to the 32-bit
/// instruction word it denotes; malformed input converts to 0.
pub fn hex_to_u64(hex_str: &str) -> (r: u32)
    ensures
        r == parse_hex_u32(hex_str@),
{
    let n = hex_str.unicode_len();
    let mut start: usize = 0;
    proof {
        assert(hex_str@.skip(0) =~= hex_str@);
    }
    loop
        invariant
            n == hex_str@.len(),
            start <= n,
            strip_hex_prefixes(hex_str@) == strip_hex_prefixes(hex_str@.skip(start as int)),
        ensures
            start <= n,
            strip_hex_prefixes(hex_str@) == hex_str@.skip(start as int),
        decreases n - start,
    {
        if n - start < 2 {
            proof {
                assert(hex_str@.skip(start as int).len() <= 1);
            }
            break ;
        }
        let c0 = hex_str.get_char(start);
        let c1 = hex_str.get_char(start + 1);
        if !(c0 == '0' && c1 == 'x') {
            proof {
                let rem = hex_str@.skip(start as int);
                assert(rem[0] == c0 && rem[1] == c1);
            }
            break ;
        }
        proof {
            let rem = hex_str@.skip(start as int);
            assert(rem.len() >= 2 && rem[0] == '0' && rem[1] == 'x');
            assert(rem.skip(2) =~= hex_str@.skip(start as int + 2));
        }
        start = start + 2;
    }
    // One optional leading plus sign, as integer parsing accepts.
    let mut i = start;
    if i < n {
        let c = hex_str.get_char(i);
        if c == '+' {
            i = i + 1;
        }
    }
    proof {
        assert(strip_sign(strip_hex_prefixes(hex_str@)) =~= hex_str@.skip(i as int));
    }
    let ghost t = hex_str@.skip(i as int);
    if i == n {
        // No digits at all.
        return 0;
    }
    let i0 = i;
    let mut acc: u64 = 0;
    let mut overflow = false;
    let mut j = i0;
    proof {
        assert(t.take(0) =~= Seq::<char>::empty());
    }
    while j < n
        invariant
            n == hex_str@.len(),
            i0 <= j <= n,
            i0 < n,
            t == hex_str@.skip(i0 as int),
            t.len() == n - i0,
            strip_sign(strip_hex_prefixes(hex_str@)) == t,
            all_hex_digits(t.take(j - i0)),
            !overflow ==> acc == hex_digits_val(t.take(j - i0)) && acc <= u32::MAX,
            overflow ==> hex_digits_val(t.take(j - i0)) > u32::MAX,
        decreases n - j,
    {
        let c = hex_str.get_char(j);
        let cu = c as u32;
        proof {
            assert(t[j - i0] == c);
        }
        let d: u32;
        if 0x30 <= cu && cu <= 0x39 {
            d = cu - 0x30;
        } else if 0x61 <= cu && cu <= 0x66 {
            d = cu - 0x61 + 10;
        } else if 0x41 <= cu && cu <= 0x46 {
            d = cu - 0x41 + 10;
        } else {
            proof {
                assert(!is_hex_digit(t[j - i0]));
                assert(!all_hex_digits(t));
            }
            return 0;
        }
        proof {
            assert(t.take(j - i0 + 1).drop_last() =~= t.take(j - i0));
            assert(t.take(j - i0 + 1).last() == t[j - i0]);
            assert(hex_digit_val(t[j - i0]) == d);
        }
        if !overflow {
            let next: u64 = acc * 16 + d as u64;
            if next > u32::MAX as u64 {
                overflow = true;
            } else {
                acc = next;
            }
        } else {
            proof {
                let v = hex_digits_val(t.take(j - i0));
                assert(hex_digits_val(t.take(j - i0 + 1)) == v * 16 + hex_digit_val(t[j - i0]));
                assert(v * 16 >= v);
            }
        }
        j = j + 1;
    }
    proof {
        assert(t.take((n - i0) as int) =~= t);
        assert(t.len() > 0);
    }
    if overflow {
        0
    } else {
        acc as u32
    }
}

/// State of the instruction-decoder window.
pub struct InstrDecoder {
    /// Is the window open or not.
    pub window_open: bool,
    pub font_size: usize,
    /// The instruction typed as hexadecimal text.
    pub instr_hex: String,
    /// The assembly text shown for the decoded instruction.
    pub instr_disasm: String,
}

impl Default for InstrDecoder {
    /// A decoder whose window starts open, with empty input and output.
    fn default() -> (d: InstrDecoder)
        ensures
            d.window_open == true,
            d.font_size == 0,
            d.instr_hex@ =~= Seq::<char>::empty(),
            d.instr_disasm@ =~= Seq::<char>::empty(),
    {
        InstrDecoder {
            window_open: true,
            font_size: 0,
            instr_hex: String::new(),
            instr_disasm: String::new(),
        }
    }
}

impl InstrDecoder {
    /// Open the window.
    pub fn open(&mut self)
        ensures
            final(self).window_open == true,
            final(self).font_size == old(self).font_size,
            final(self).instr_hex == old(self).instr_hex,
            final(self).instr_disasm == old(self).instr_disasm,
    {
        self.window_open = true;
    }

    /// The 32-bit instruction word the typed text denotes (0 if malformed),
    /// ready to be handed to a disassembler.
    pub fn decoded_word(&self) -> (w: u32)
        ensures
            w == parse_hex_u32(self.instr_hex@),
    {
        hex_to_u64(self.instr_hex.as_str())
    }
}

} // verus!
