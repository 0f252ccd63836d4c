//! Core logic of a hotkey-driven text-snippet paster: shortcut-file parsing,
//! hotkey registration and matching, the clipboard save/replace/restore paste
//! protocol, and the window-message dispatch decisions, all with verified
//! contracts. The operating-system calls themselves live outside this crate.

pub mod clip_formats;
pub mod paste;
pub mod shortcuts;
pub mod utils;
pub mod windowing;

use vstd::prelude::*;

verus! {

/// What the hotkey-capture control's report becomes after the shift/alt
/// swap correction: shift is bit 0x1, alt is bit 0x4; when exactly one of
/// the two is set, both bits flip, otherwise the byte is unchanged.
pub open spec fn fixed_modifiers(m: u8) -> u8 {
    if ((m & 0x1) != 0) != ((m & 0x4) != 0) {
        (m ^ 0x5) as u8
    } else {
        m
    }
}

/// The hotkey-capture control reports shift and alt in swapped bit
/// positions when exactly one of them is held; flip both bits in that
/// case and leave the byte alone otherwise.
pub fn fix_modifiers(mods: u8) -> (r: u8)
    ensures
        r == fixed_modifiers(mods),
{
    let shift = mods & 0x1;
    let alt = mods & 0x4;

    proof {
        assert(mods & 0x1 == 0 || mods & 0x1 == 0x1) by (bit_vector);
        assert(mods & 0x4 == 0 || mods & 0x4 == 0x4) by (bit_vector);
        assert((mods ^ 0x1) ^ 0x4 == (mods ^ 0x5) as u8) by (bit_vector);
        assert((mods ^ 0x4) ^ 0x1 == (mods ^ 0x5) as u8) by (bit_vector);
    }

    if shift == 0x1 && alt == 0x4 {
        return mods;
    }

    if shift == 0x1 {
        return (mods ^ 0x1) ^ 0x4;
    }

    if alt == 0x4 {
        return (mods ^ 0x4) ^ 0x1;
    }

    mods
}

/// Correcting the modifier byte twice restores the original byte: the
/// transform is an involution.
pub proof fn lemma_fix_modifiers_involutive(m: u8)
    ensures
        fixed_modifiers(fixed_modifiers(m)) == m,
{
    if ((m & 0x1) != 0) != ((m & 0x4) != 0) {
        let r = (m ^ 0x5) as u8;
        assert((((m ^ 0x5) & 0x1) != 0) != (((m ^ 0x5) & 0x4) != 0) && ((m ^ 0x5) ^ 0x5) as u8 == m)
            by (bit_vector)
            requires
                ((m & 0x1) != 0) != ((m & 0x4) != 0),
        ;
        assert(fixed_modifiers(r) == m);
    }
}

} // verus!
