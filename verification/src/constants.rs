//! Opcode-table constants: the mask/matching bit patterns that isolate the
//! opcode-defining bits of each instruction family, and the bitsets naming
//! which effective-address modes a table row permits.

use vstd::prelude::*;

verus! {

/// Keeps bits 15..=12 and 8..=6: masks out the register field at 11..=9 and
/// the effective-address field at 5..=0.
pub const MASK_OUT_X_EA: u32 = 0xF1C0;

/// Keeps bits 15..=6: masks out the effective-address field alone.
pub const MASK_OUT_EA: u32 = 0xFFC0;

/// Keeps bits 15..=12: masks out both effective-address fields of MOVE.
pub const MASK_OUT_EA_EA: u32 = 0xF000;

pub const OP_ADD: u32 = 0xD000;

pub const OP_ADDI: u32 = 0x0600;

pub const OP_MOVE: u32 = 0x0000;

pub const OP_MOVE2: u32 = 0x4000;

/// Size field at bits 7..=6 (and, for ADD, the low bits of the opmode).
pub const BYTE_SIZED: u32 = 0x0000;

pub const WORD_SIZED: u32 = 0x0040;

pub const LONG_SIZED: u32 = 0x0080;

/// ADD opmode: destination is the data register.
pub const DEST_DX: u32 = 0x0000;

/// ADD opmode: destination is the effective address.
pub const DEST_EA: u32 = 0x0100;

/// ADDA opmode: word add to an address register.
pub const DEST_AX_WORD: u32 = 0x00C0;

/// ADDA opmode: long add to an address register.
pub const DEST_AX_LONG: u32 = 0x01C0;

/// MOVE size field at bits 13..=12.
pub const BYTE_MOVE: u32 = 0x1000;

pub const WORD_MOVE: u32 = 0x3000;

pub const LONG_MOVE: u32 = 0x2000;

/// MOVE destination mode field naming an address register.
pub const MOVE_TO_AN: u32 = 0x0040;

pub const MOVE_TO_SR: u32 = 0x06C0;

pub const MOVE_TO_CCR: u32 = 0x04C0;

/// Effective-address class bits, one per addressing mode: 0 `Dn`, 1 `An`,
/// 2 `(An)`, 3 `(An)+`, 4 `-(An)`, 5 `(d,An)`, 6 `(d,An,Xi)`, 7 `addr.W`,
/// 8 `addr.L`, 9 `(d,PC)`, 10 `(d,PC,Xi)`, 11 `#imm`.
pub const EA_ALL: u16 = 0x0FFF;

pub const EA_ALL_EXCEPT_AN: u16 = 0x0FFD;

pub const EA_DATA: u16 = 0x0FFD;

pub const EA_ALTERABLE: u16 = 0x01FF;

pub const EA_DATA_ALTERABLE: u16 = 0x01FD;

pub const EA_MEMORY_ALTERABLE: u16 = 0x01FC;

} // verus!
