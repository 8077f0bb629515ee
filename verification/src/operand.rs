//! The M68k effective-address operand model: one variant per addressing
//! mode, the 6-bit mode/register encoding, the extension words each mode
//! carries, and the canonical text the disassembler prints.

use vstd::prelude::*;
use vstd::string::StringExecFns;
use crate::Size;
use crate::memory::{MemoryVec, put_word, put_words};
use crate::text::{digit_char, dec_digits, int_text, dec_str, int_str};

verus! {

/// One M68k addressing mode with its registers and constants. Register
/// numbers run 0..=7; an index register 0..=7 is D0..D7 and 8..=15 is
/// A0..A7.
#[derive(Clone, Copy, Debug, PartialEq, Eq, Structural)]
pub enum Operand {
    DataRegisterDirect(u8),
    AddressRegisterDirect(u8),
    AddressRegisterIndirect(u8),
    AddressRegisterIndirectWithPostincrement(u8),
    AddressRegisterIndirectWithPredecrement(u8),
    AddressRegisterIndirectWithDisplacement(u8, i16),
    AddressRegisterIndirectWithIndex(u8, u8, i8),
    PcWithDisplacement(i16),
    PcWithIndex(u8, i8),
    AbsoluteWord(u16),
    AbsoluteLong(u32),
    Immediate(Size, u32),
    StatusRegister(Size),
}

/// The unsigned 16-bit word with the same bits as `d`.
pub open spec fn u16_of_i16(d: i16) -> u16 {
    if d >= 0 {
        d as u16
    } else {
        (d + 0x1_0000) as u16
    }
}

/// The signed value the 16-bit word `w` holds in two's complement.
pub open spec fn i16_of_u16(w: u16) -> i16 {
    if w < 0x8000 {
        w as i16
    } else {
        (w - 0x1_0000) as i16
    }
}

/// The unsigned byte with the same bits as `d`.
pub open spec fn u8_of_i8(d: i8) -> u8 {
    if d >= 0 {
        d as u8
    } else {
        (d + 0x100) as u8
    }
}

/// The signed value the byte `b` holds in two's complement.
pub open spec fn i8_of_u8(b: u8) -> i8 {
    if b < 0x80 {
        b as i8
    } else {
        (b - 0x100) as i8
    }
}

/// The brief extension word of the indexed modes: the index register kind in
/// bit 15, its number in bits 14..=12, an index size fixed to word, and the
/// signed 8-bit displacement in the low byte.
pub open spec fn brief_word(ireg: u8, d: i8) -> u16 {
    ((if ireg >= 8 {
        0x8000int
    } else {
        0int
    }) + (ireg % 8) * 0x1000 + u8_of_i8(d)) as u16
}

/// Structural validity: register numbers at most 7, index registers at most
/// 15, and a status register that is either `SR` (word) or `CCR` (byte).
pub open spec fn wf_operand(o: Operand) -> bool {
    match o {
        Operand::DataRegisterDirect(r) => r <= 7,
        Operand::AddressRegisterDirect(r) => r <= 7,
        Operand::AddressRegisterIndirect(r) => r <= 7,
        Operand::AddressRegisterIndirectWithPostincrement(r) => r <= 7,
        Operand::AddressRegisterIndirectWithPredecrement(r) => r <= 7,
        Operand::AddressRegisterIndirectWithDisplacement(r, _) => r <= 7,
        Operand::AddressRegisterIndirectWithIndex(r, i, _) => r <= 7 && i <= 15,
        Operand::PcWithDisplacement(_) => true,
        Operand::PcWithIndex(i, _) => i <= 15,
        Operand::AbsoluteWord(_) => true,
        Operand::AbsoluteLong(_) => true,
        Operand::Immediate(_, _) => true,
        Operand::StatusRegister(s) => s == Size::Word || s == Size::Byte,
    }
}

/// The 3-bit mode field of the effective-address encoding. The status
/// register has no encoding and is given the invalid pair (7, 7).
pub open spec fn s_mode_bits(o: Operand) -> u8 {
    match o {
        Operand::DataRegisterDirect(_) => 0,
        Operand::AddressRegisterDirect(_) => 1,
        Operand::AddressRegisterIndirect(_) => 2,
        Operand::AddressRegisterIndirectWithPostincrement(_) => 3,
        Operand::AddressRegisterIndirectWithPredecrement(_) => 4,
        Operand::AddressRegisterIndirectWithDisplacement(_, _) => 5,
        Operand::AddressRegisterIndirectWithIndex(_, _, _) => 6,
        Operand::PcWithDisplacement(_) => 7,
        Operand::PcWithIndex(_, _) => 7,
        Operand::AbsoluteWord(_) => 7,
        Operand::AbsoluteLong(_) => 7,
        Operand::Immediate(_, _) => 7,
        Operand::StatusRegister(_) => 7,
    }
}

/// The 3-bit register field of the effective-address encoding.
pub open spec fn s_register_bits(o: Operand) -> u8 {
    match o {
        Operand::DataRegisterDirect(r) => r,
        Operand::AddressRegisterDirect(r) => r,
        Operand::AddressRegisterIndirect(r) => r,
        Operand::AddressRegisterIndirectWithPostincrement(r) => r,
        Operand::AddressRegisterIndirectWithPredecrement(r) => r,
        Operand::AddressRegisterIndirectWithDisplacement(r, _) => r,
        Operand::AddressRegisterIndirectWithIndex(r, _, _) => r,
        Operand::PcWithDisplacement(_) => 2,
        Operand::PcWithIndex(_, _) => 3,
        Operand::AbsoluteWord(_) => 0,
        Operand::AbsoluteLong(_) => 1,
        Operand::Immediate(_, _) => 4,
        Operand::StatusRegister(_) => 7,
    }
}

/// The trailing 16-bit words this operand emits after the opcode word. An
/// immediate takes its width from `size`, the size of the instruction.
pub open spec fn ext_words(o: Operand, size: Size) -> Seq<u16> {
    match o {
        Operand::AddressRegisterIndirectWithDisplacement(_, d) => seq![u16_of_i16(d)],
        Operand::AddressRegisterIndirectWithIndex(_, i, d) => seq![brief_word(i, d)],
        Operand::PcWithDisplacement(d) => seq![u16_of_i16(d)],
        Operand::PcWithIndex(i, d) => seq![brief_word(i, d)],
        Operand::AbsoluteWord(w) => seq![w],
        Operand::AbsoluteLong(l) => seq![(l / 0x1_0000) as u16, (l % 0x1_0000) as u16],
        Operand::Immediate(_, v) => match size {
            Size::Long => seq![(v / 0x1_0000) as u16, (v % 0x1_0000) as u16],
            Size::Byte => seq![(v % 0x100) as u16],
            _ => seq![(v % 0x1_0000) as u16],
        },
        _ => Seq::<u16>::empty(),
    }
}

/// How many extension words an effective address with the given mode and
/// register fields carries; immediates follow the instruction size.
pub open spec fn ea_ext_count(mode: u8, reg: u8, size: Size) -> int {
    if mode == 5 || mode == 6 {
        1
    } else if mode == 7 {
        if reg == 0 || reg == 2 || reg == 3 {
            1
        } else if reg == 1 {
            2
        } else if reg == 4 {
            if size == Size::Long {
                2
            } else {
                1
            }
        } else {
            0
        }
    } else {
        0
    }
}

/// The index register encoded in the brief extension word `w`.
pub open spec fn brief_ireg(w: u16) -> u8 {
    ((w / 0x8000) * 8 + (w / 0x1000) % 8) as u8
}

/// The operand an effective-address field with extension words `w1`, `w2`
/// decodes to; `None` for the unassigned mode-7 register fields. An
/// immediate takes the instruction size `size`.
pub open spec fn operand_from_ea(mode: u8, reg: u8, size: Size, w1: u16, w2: u16) -> Option<
    Operand,
> {
    if mode == 0 {
        Some(Operand::DataRegisterDirect(reg))
    } else if mode == 1 {
        Some(Operand::AddressRegisterDirect(reg))
    } else if mode == 2 {
        Some(Operand::AddressRegisterIndirect(reg))
    } else if mode == 3 {
        Some(Operand::AddressRegisterIndirectWithPostincrement(reg))
    } else if mode == 4 {
        Some(Operand::AddressRegisterIndirectWithPredecrement(reg))
    } else if mode == 5 {
        Some(Operand::AddressRegisterIndirectWithDisplacement(reg, i16_of_u16(w1)))
    } else if mode == 6 {
        Some(
            Operand::AddressRegisterIndirectWithIndex(
                reg,
                brief_ireg(w1),
                i8_of_u8((w1 % 0x100) as u8),
            ),
        )
    } else if mode == 7 && reg == 0 {
        Some(Operand::AbsoluteWord(w1))
    } else if mode == 7 && reg == 1 {
        Some(Operand::AbsoluteLong((w1 * 0x1_0000 + w2) as u32))
    } else if mode == 7 && reg == 2 {
        Some(Operand::PcWithDisplacement(i16_of_u16(w1)))
    } else if mode == 7 && reg == 3 {
        Some(Operand::PcWithIndex(brief_ireg(w1), i8_of_u8((w1 % 0x100) as u8)))
    } else if mode == 7 && reg == 4 {
        if size == Size::Long {
            Some(Operand::Immediate(size, (w1 * 0x1_0000 + w2) as u32))
        } else if size == Size::Byte {
            Some(Operand::Immediate(size, (w1 % 0x100) as u32))
        } else {
            Some(Operand::Immediate(size, w1 as u32))
        }
    } else {
        None
    }
}

impl Operand {
    /// The 3-bit mode field of this operand's effective-address encoding.
    pub fn mode_bits(&self) -> (r: u8)
        ensures
            r == s_mode_bits(*self),
    {
        match *self {
            Operand::DataRegisterDirect(_) => 0,
            Operand::AddressRegisterDirect(_) => 1,
            Operand::AddressRegisterIndirect(_) => 2,
            Operand::AddressRegisterIndirectWithPostincrement(_) => 3,
            Operand::AddressRegisterIndirectWithPredecrement(_) => 4,
            Operand::AddressRegisterIndirectWithDisplacement(_, _) => 5,
            Operand::AddressRegisterIndirectWithIndex(_, _, _) => 6,
            _ => 7,
        }
    }

    /// The 3-bit register field of this operand's effective-address
    /// encoding.
    pub fn register_bits(&self) -> (r: u8)
        ensures
            r == s_register_bits(*self),
    {
        match *self {
            Operand::DataRegisterDirect(r) => r,
            Operand::AddressRegisterDirect(r) => r,
            Operand::AddressRegisterIndirect(r) => r,
            Operand::AddressRegisterIndirectWithPostincrement(r) => r,
            Operand::AddressRegisterIndirectWithPredecrement(r) => r,
            Operand::AddressRegisterIndirectWithDisplacement(r, _) => r,
            Operand::AddressRegisterIndirectWithIndex(r, _, _) => r,
            Operand::PcWithDisplacement(_) => 2,
            Operand::PcWithIndex(_, _) => 3,
            Operand::AbsoluteWord(_) => 0,
            Operand::AbsoluteLong(_) => 1,
            Operand::Immediate(_, _) => 4,
            Operand::StatusRegister(_) => 7,
        }
    }

    /// How many 16-bit extension words this operand occupies on its own
    /// account: register modes none, displacement and word forms one,
    /// long forms two, an immediate one unless it is long.
    pub fn extension_words(&self) -> (r: u32)
        ensures
            *self is Immediate ==> r == ext_words(*self, (*self)->Immediate_0).len(),
            !(*self is Immediate) ==> r == ext_words(*self, Size::Word).len(),
    {
        match *self {
            Operand::AddressRegisterIndirectWithDisplacement(_, _) => 1,
            Operand::AddressRegisterIndirectWithIndex(_, _, _) => 1,
            Operand::PcWithDisplacement(_) => 1,
            Operand::PcWithIndex(_, _) => 1,
            Operand::AbsoluteWord(_) => 1,
            Operand::AbsoluteLong(_) => 2,
            Operand::Immediate(Size::Long, _) => 2,
            Operand::Immediate(_, _) => 1,
            _ => 0,
        }
    }

    /// Decode the operand for an effective-address field, reading its
    /// extension words from `mem` starting at `pc`. Returns the operand and
    /// the address just past the words it consumed, or `None` when the field
    /// is unassigned or the image ends too soon.
    pub fn parse_extension(mode: u8, reg: u8, size: Size, pc: u32, mem: &MemoryVec) -> (r: Option<
        (Operand, u32),
    >)
        requires
            mode <= 7,
            reg <= 7,
            pc + 4 <= u32::MAX,
        ensures
            ({
                let cnt = ea_ext_count(mode, reg, size);
                let ok1 = cnt < 1 || mem.word_readable(pc);
                let ok2 = cnt < 2 || mem.word_readable((pc + 2) as u32);
                let w1 = if cnt >= 1 && mem.word_readable(pc) {
                    mem.word_at(pc)
                } else {
                    0u16
                };
                let w2 = if cnt >= 2 && mem.word_readable((pc + 2) as u32) {
                    mem.word_at((pc + 2) as u32)
                } else {
                    0u16
                };
                if ok1 && ok2 {
                    r == (match operand_from_ea(mode, reg, size, w1, w2) {
                        Some(o) => Some((o, (pc + 2 * cnt) as u32)),
                        None => None::<(Operand, u32)>,
                    })
                } else {
                    r is None
                }
            }),
    {
        if mode == 0 {
            Some((Operand::DataRegisterDirect(reg), pc))
        } else if mode == 1 {
            Some((Operand::AddressRegisterDirect(reg), pc))
        } else if mode == 2 {
            Some((Operand::AddressRegisterIndirect(reg), pc))
        } else if mode == 3 {
            Some((Operand::AddressRegisterIndirectWithPostincrement(reg), pc))
        } else if mode == 4 {
            Some((Operand::AddressRegisterIndirectWithPredecrement(reg), pc))
        } else if mode == 5 {
            match mem.read_word_checked(pc) {
                Some(w) => Some(
                    (
                        Operand::AddressRegisterIndirectWithDisplacement(reg, i16_of_word(w)),
                        pc + 2,
                    ),
                ),
                None => None,
            }
        } else if mode == 6 {
            match mem.read_word_checked(pc) {
                Some(w) => Some(
                    (
                        Operand::AddressRegisterIndirectWithIndex(
                            reg,
                            brief_ireg_of(w),
                            i8_of_low_byte(w),
                        ),
                        pc + 2,
                    ),
                ),
                None => None,
            }
        } else if reg == 0 {
            match mem.read_word_checked(pc) {
                Some(w) => Some((Operand::AbsoluteWord(w), pc + 2)),
                None => None,
            }
        } else if reg == 1 {
            match (mem.read_word_checked(pc), mem.read_word_checked(pc + 2)) {
                (Some(w1), Some(w2)) => Some(
                    (Operand::AbsoluteLong((w1 as u32) * 0x1_0000 + (w2 as u32)), pc + 4),
                ),
                _ => None,
            }
        } else if reg == 2 {
            match mem.read_word_checked(pc) {
                Some(w) => Some((Operand::PcWithDisplacement(i16_of_word(w)), pc + 2)),
                None => None,
            }
        } else if reg == 3 {
            match mem.read_word_checked(pc) {
                Some(w) => Some(
                    (Operand::PcWithIndex(brief_ireg_of(w), i8_of_low_byte(w)), pc + 2),
                ),
                None => None,
            }
        } else if reg == 4 {
            if size == Size::Long {
                match (mem.read_word_checked(pc), mem.read_word_checked(pc + 2)) {
                    (Some(w1), Some(w2)) => Some(
                        (
                            Operand::Immediate(size, (w1 as u32) * 0x1_0000 + (w2 as u32)),
                            pc + 4,
                        ),
                    ),
                    _ => None,
                }
            } else if size == Size::Byte {
                match mem.read_word_checked(pc) {
                    Some(w) => Some((Operand::Immediate(size, (w % 0x100) as u32), pc + 2)),
                    None => None,
                }
            } else {
                match mem.read_word_checked(pc) {
                    Some(w) => Some((Operand::Immediate(size, w as u32), pc + 2)),
                    None => None,
                }
            }
        } else {
            None
        }
    }

    /// Write this operand's extension words into `mem` starting at `pc` and
    /// return the address just past them. An immediate is written at the
    /// width of the instruction size `size`.
    pub fn emit_extension(&self, size: Size, pc: u32, mem: &mut MemoryVec) -> (r: u32)
        requires
            old(mem).base() <= pc,
            pc + 4 <= u32::MAX,
            pc - old(mem).base() + 4 <= usize::MAX,
        ensures
            final(mem).base() == old(mem).base(),
            final(mem).view_bytes() == put_words(
                old(mem).view_bytes(),
                pc - old(mem).base(),
                ext_words(*self, size),
            ),
            r == pc + 2 * ext_words(*self, size).len(),
    {
        match *self {
            Operand::AddressRegisterIndirectWithDisplacement(_, d) => {
                mem.write_word(pc, word_of_i16(d));
                proof {
                    lemma_put_words_one(
                        old(mem).view_bytes(),
                        pc - old(mem).base(),
                        u16_of_i16(d),
                    );
                }
                pc + 2
            },
            Operand::AddressRegisterIndirectWithIndex(_, i, d) => {
                mem.write_word(pc, brief_word_of(i, d));
                proof {
                    lemma_put_words_one(
                        old(mem).view_bytes(),
                        pc - old(mem).base(),
                        brief_word(i, d),
                    );
                }
                pc + 2
            },
            Operand::PcWithDisplacement(d) => {
                mem.write_word(pc, word_of_i16(d));
                proof {
                    lemma_put_words_one(
                        old(mem).view_bytes(),
                        pc - old(mem).base(),
                        u16_of_i16(d),
                    );
                }
                pc + 2
            },
            Operand::PcWithIndex(i, d) => {
                mem.write_word(pc, brief_word_of(i, d));
                proof {
                    lemma_put_words_one(
                        old(mem).view_bytes(),
                        pc - old(mem).base(),
                        brief_word(i, d),
                    );
                }
                pc + 2
            },
            Operand::AbsoluteWord(w) => {
                mem.write_word(pc, w);
                proof {
                    lemma_put_words_one(old(mem).view_bytes(), pc - old(mem).base(), w);
                }
                pc + 2
            },
            Operand::AbsoluteLong(l) => {
                mem.write_word(pc, (l / 0x1_0000) as u16);
                mem.write_word(pc + 2, (l % 0x1_0000) as u16);
                proof {
                    lemma_put_words_two(
                        old(mem).view_bytes(),
                        pc - old(mem).base(),
                        (l / 0x1_0000) as u16,
                        (l % 0x1_0000) as u16,
                    );
                }
                pc + 4
            },
            Operand::Immediate(_, v) => {
                if size == Size::Long {
                    mem.write_word(pc, (v / 0x1_0000) as u16);
                    mem.write_word(pc + 2, (v % 0x1_0000) as u16);
                    proof {
                        lemma_put_words_two(
                            old(mem).view_bytes(),
                            pc - old(mem).base(),
                            (v / 0x1_0000) as u16,
                            (v % 0x1_0000) as u16,
                        );
                    }
                    pc + 4
                } else if size == Size::Byte {
                    mem.write_word(pc, (v % 0x100) as u16);
                    proof {
                        lemma_put_words_one(
                            old(mem).view_bytes(),
                            pc - old(mem).base(),
                            (v % 0x100) as u16,
                        );
                    }
                    pc + 2
                } else {
                    mem.write_word(pc, (v % 0x1_0000) as u16);
                    proof {
                        lemma_put_words_one(
                            old(mem).view_bytes(),
                            pc - old(mem).base(),
                            (v % 0x1_0000) as u16,
                        );
                    }
                    pc + 2
                }
            },
            _ => {
                proof {
                    assert(final(mem).view_bytes() =~= put_words(
                        old(mem).view_bytes(),
                        pc - old(mem).base(),
                        ext_words(*self, size),
                    ));
                }
                pc
            },
        }
    }
}

/// The canonical text of an index register: `D0`..`D7` for 0..=7 and
/// `A0`..`A7` for 8..=15.
pub open spec fn xreg_text(i: u8) -> Seq<char> {
    if i < 8 {
        seq!['D', digit_char(i as int)]
    } else {
        seq!['A', digit_char(i as int - 8)]
    }
}

/// The canonical disassembly text of an operand, as the statement parser
/// reads it back: `Dn`, `An`, `(An)`, `(An)+`, `-(An)`, `(d,An)`,
/// `(d,An,Xi)`, `(d,PC)`, `(d,PC,Xi)`, `addr.W`, `addr.L`, `#imm`, `SR` or
/// `CCR`, all numbers in signed or unsigned decimal.
pub open spec fn operand_text(o: Operand) -> Seq<char> {
    match o {
        Operand::DataRegisterDirect(r) => seq!['D', digit_char(r as int)],
        Operand::AddressRegisterDirect(r) => seq!['A', digit_char(r as int)],
        Operand::AddressRegisterIndirect(r) => seq!['(', 'A', digit_char(r as int), ')'],
        Operand::AddressRegisterIndirectWithPostincrement(r) => seq![
            '(',
            'A',
            digit_char(r as int),
            ')',
            '+',
        ],
        Operand::AddressRegisterIndirectWithPredecrement(r) => seq![
            '-',
            '(',
            'A',
            digit_char(r as int),
            ')',
        ],
        Operand::AddressRegisterIndirectWithDisplacement(r, d) => seq!['('] + int_text(d as int)
            + seq![',', 'A', digit_char(r as int), ')'],
        Operand::AddressRegisterIndirectWithIndex(r, i, d) => seq!['('] + int_text(d as int)
            + seq![',', 'A', digit_char(r as int), ','] + xreg_text(i) + seq![')'],
        Operand::PcWithDisplacement(d) => seq!['('] + int_text(d as int) + seq![',', 'P', 'C', ')'],
        Operand::PcWithIndex(i, d) => seq!['('] + int_text(d as int) + seq![',', 'P', 'C', ',']
            + xreg_text(i) + seq![')'],
        Operand::AbsoluteWord(w) => dec_digits(w as nat) + seq!['.', 'W'],
        Operand::AbsoluteLong(l) => dec_digits(l as nat) + seq!['.', 'L'],
        Operand::Immediate(_, v) => seq!['#'] + dec_digits(v as nat),
        Operand::StatusRegister(s) => if s == Size::Byte {
            seq!['C', 'C', 'R']
        } else {
            seq!['S', 'R']
        },
    }
}

impl Operand {
    /// Print this operand in the canonical form the parser reads back.
    pub fn to_text(&self) -> (r: String)
        requires
            wf_operand(*self),
        ensures
            r@ == operand_text(*self),
    {
        proof {
            reveal_strlit("(");
            reveal_strlit(")");
            reveal_strlit(")+");
            reveal_strlit("-(");
            reveal_strlit(",");
            reveal_strlit(",PC)");
            reveal_strlit(",PC,");
            reveal_strlit(".W");
            reveal_strlit(".L");
            reveal_strlit("#");
            reveal_strlit("SR");
            reveal_strlit("CCR");
        }
        match *self {
            Operand::DataRegisterDirect(n) => {
                let s = xreg_str(n);
                proof {
                    assert(s@ =~= operand_text(*self));
                }
                s
            },
            Operand::AddressRegisterDirect(n) => {
                let s = areg_str(n);
                proof {
                    assert(s@ =~= operand_text(*self));
                }
                s
            },
            Operand::AddressRegisterIndirect(n) => {
                let mut s = "(".to_owned();
                s.append(areg_str(n).as_str());
                s.append(")");
                proof {
                    assert(s@ =~= operand_text(*self));
                }
                s
            },
            Operand::AddressRegisterIndirectWithPostincrement(n) => {
                let mut s = "(".to_owned();
                s.append(areg_str(n).as_str());
                s.append(")+");
                proof {
                    assert(s@ =~= operand_text(*self));
                }
                s
            },
            Operand::AddressRegisterIndirectWithPredecrement(n) => {
                let mut s = "-(".to_owned();
                s.append(areg_str(n).as_str());
                s.append(")");
                proof {
                    assert(s@ =~= operand_text(*self));
                }
                s
            },
            Operand::AddressRegisterIndirectWithDisplacement(n, d) => {
                let mut s = "(".to_owned();
                s.append(int_str(d as i32).as_str());
                s.append(",");
                s.append(areg_str(n).as_str());
                s.append(")");
                proof {
                    assert(s@ =~= operand_text(*self));
                }
                s
            },
            Operand::AddressRegisterIndirectWithIndex(n, i, d) => {
                let mut s = "(".to_owned();
                s.append(int_str(d as i32).as_str());
                s.append(",");
                s.append(areg_str(n).as_str());
                s.append(",");
                s.append(xreg_str(i).as_str());
                s.append(")");
                proof {
                    assert(s@ =~= operand_text(*self));
                }
                s
            },
            Operand::PcWithDisplacement(d) => {
                let mut s = "(".to_owned();
                s.append(int_str(d as i32).as_str());
                s.append(",PC)");
                proof {
                    assert(s@ =~= operand_text(*self));
                }
                s
            },
            Operand::PcWithIndex(i, d) => {
                let mut s = "(".to_owned();
                s.append(int_str(d as i32).as_str());
                s.append(",PC,");
                s.append(xreg_str(i).as_str());
                s.append(")");
                proof {
                    assert(s@ =~= operand_text(*self));
                }
                s
            },
            Operand::AbsoluteWord(w) => {
                let mut s = dec_str(w as u32);
                s.append(".W");
                proof {
                    assert(s@ =~= operand_text(*self));
                }
                s
            },
            Operand::AbsoluteLong(l) => {
                let mut s = dec_str(l);
                s.append(".L");
                proof {
                    assert(s@ =~= operand_text(*self));
                }
                s
            },
            Operand::Immediate(_, v) => {
                let mut s = "#".to_owned();
                s.append(dec_str(v).as_str());
                proof {
                    assert(s@ =~= operand_text(*self));
                }
                s
            },
            Operand::StatusRegister(z) => {
                if z == Size::Byte {
                    let s = "CCR".to_owned();
                    proof {
                        assert(s@ =~= operand_text(*self));
                    }
                    s
                } else {
                    let s = "SR".to_owned();
                    proof {
                        assert(s@ =~= operand_text(*self));
                    }
                    s
                }
            },
        }
    }
}

/// The text `An` of an address register.
fn areg_str(n: u8) -> (r: String)
    requires
        n <= 7,
    ensures
        r@ == seq!['A', digit_char(n as int)],
{
    proof {
        reveal_strlit("A");
    }
    let mut s = "A".to_owned();
    s.append(crate::text::digit_str(n as u32));
    proof {
        assert(s@ =~= seq!['A', digit_char(n as int)]);
    }
    s
}

/// The text of an index register, `D0`..`D7` or `A0`..`A7`.
fn xreg_str(i: u8) -> (r: String)
    requires
        i <= 15,
    ensures
        r@ == xreg_text(i),
{
    proof {
        reveal_strlit("D");
        reveal_strlit("A");
    }
    if i < 8 {
        let mut s = "D".to_owned();
        s.append(crate::text::digit_str(i as u32));
        proof {
            assert(s@ =~= xreg_text(i));
        }
        s
    } else {
        let mut s = "A".to_owned();
        s.append(crate::text::digit_str((i - 8) as u32));
        proof {
            assert(s@ =~= xreg_text(i));
        }
        s
    }
}

/// Decoding an effective address and emitting the result reproduces the
/// original field and extension words. The brief extension words must have
/// their ignored bits 8..=11 clear, and a byte immediate its high byte
/// clear, since the decoder discards those bits and the encoder writes them
/// back as zero.
pub proof fn lemma_operand_ext_roundtrip(mode: u8, reg: u8, size: Size, w1: u16, w2: u16)
    requires
        mode <= 7,
        reg <= 7,
        operand_from_ea(mode, reg, size, w1, w2) is Some,
        mode == 6 ==> w1 % 0x1000 < 0x100,
        mode == 7 && reg == 3 ==> w1 % 0x1000 < 0x100,
        mode == 7 && reg == 4 && size == Size::Byte ==> w1 < 0x100,
    ensures
        ({
            let o = operand_from_ea(mode, reg, size, w1, w2)->Some_0;
            &&& s_mode_bits(o) == mode
            &&& s_register_bits(o) == reg
            &&& wf_operand(o)
            &&& ext_words(o, size) =~= seq![w1, w2].take(ea_ext_count(mode, reg, size))
        }),
{
    let o = operand_from_ea(mode, reg, size, w1, w2)->Some_0;
    if mode == 6 || (mode == 7 && reg == 3) {
        assert((w1 / 0x8000) * 0x8000 + ((w1 / 0x1000) % 8) * 0x1000 + (w1 % 0x100) == w1
            && w1 / 0x8000 <= 1) by (bit_vector)
            requires
                w1 % 0x1000 < 0x100,
        ;
        assert(brief_word(brief_ireg(w1), i8_of_u8((w1 % 0x100) as u8)) == w1);
    }
    if (mode == 7 && reg == 1) || (mode == 7 && reg == 4 && size == Size::Long) {
        let l = (w1 * 0x1_0000 + w2) as u32;
        vstd::arithmetic::div_mod::lemma_div_multiples_vanish_fancy(
            w1 as int,
            w2 as int,
            0x1_0000,
        );
        vstd::arithmetic::div_mod::lemma_mod_multiples_vanish(w1 as int, w2 as int, 0x1_0000);
        vstd::arithmetic::div_mod::lemma_small_mod(w2 as nat, 0x1_0000);
        assert(l / 0x1_0000 == w1 && l % 0x1_0000 == w2);
    }
}

/// Storing one word is one step of `put_words`.
pub proof fn lemma_put_words_one(s: Seq<u8>, idx: int, w: u16)
    ensures
        put_words(s, idx, seq![w]) == put_word(s, idx, w),
{
    let rest = seq![w].skip(1);
    assert(rest.len() == 0);
    assert(put_words(s, idx, seq![w]) == put_words(put_word(s, idx, w), idx + 2, rest));
    assert(put_words(put_word(s, idx, w), idx + 2, rest) == put_word(s, idx, w));
}

/// Storing two words back to back is two steps of `put_words`.
pub proof fn lemma_put_words_two(s: Seq<u8>, idx: int, w1: u16, w2: u16)
    ensures
        put_words(s, idx, seq![w1, w2]) == put_word(put_word(s, idx, w1), idx + 2, w2),
{
    assert(seq![w1, w2].skip(1) =~= seq![w2]);
    lemma_put_words_one(put_word(s, idx, w1), idx + 2, w2);
}

/// The 16-bit word with the same bits as `d`.
fn word_of_i16(d: i16) -> (r: u16)
    ensures
        r == u16_of_i16(d),
{
    if d >= 0 {
        d as u16
    } else {
        ((d as i32) + 0x1_0000) as u16
    }
}

/// The signed value of the word `w` in two's complement.
fn i16_of_word(w: u16) -> (r: i16)
    ensures
        r == i16_of_u16(w),
{
    if w < 0x8000 {
        w as i16
    } else {
        ((w as i32) - 0x1_0000) as i16
    }
}

/// The index register named in the brief extension word `w`.
fn brief_ireg_of(w: u16) -> (r: u8)
    ensures
        r == brief_ireg(w),
{
    ((w / 0x8000) * 8 + (w / 0x1000) % 8) as u8
}

/// The signed displacement in the low byte of the brief extension word.
fn i8_of_low_byte(w: u16) -> (r: i8)
    ensures
        r == i8_of_u8((w % 0x100) as u8),
{
    let b = w % 0x100;
    if b < 0x80 {
        b as i8
    } else {
        ((b as i32) - 0x100) as i8
    }
}

/// The brief extension word for index register `i` and displacement `d`.
fn brief_word_of(i: u8, d: i8) -> (r: u16)
    ensures
        r == brief_word(i, d),
{
    let kind: u16 = if i >= 8 {
        0x8000
    } else {
        0
    };
    let byte: u16 = if d >= 0 {
        d as u16
    } else {
        ((d as i32) + 0x100) as u16
    };
    kind + ((i % 8) as u16) * 0x1000 + byte
}

} // verus!
