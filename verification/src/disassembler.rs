//! The disassembler: scan the opcode table for the first row whose mask and
//! validator accept a 16-bit word, then decode the operands the row names,
//! reading extension words from memory.

use vstd::prelude::*;
use crate::{Size, Exception, OpcodeInfo, OpcodeInstance, Validator, Decoder, spec_table, generate};
use crate::constants::EA_ALL;
use crate::memory::MemoryVec;
use crate::operand::{Operand, operand_from_ea, ea_ext_count};
use vstd::string::StrSliceExecFns;

verus! {

/// The source effective-address mode field, bits 5..=3.
pub open spec fn src_mode(op: u16) -> u8 {
    ((op / 8) % 8) as u8
}

/// The source effective-address register field, bits 2..=0.
pub open spec fn src_reg(op: u16) -> u8 {
    (op % 8) as u8
}

/// The destination mode field of MOVE, bits 8..=6.
pub open spec fn dst_mode(op: u16) -> u8 {
    ((op / 0x40) % 8) as u8
}

/// The destination register field of MOVE, bits 11..=9; also the data or
/// address register field of the one-register instruction forms.
pub open spec fn dst_reg(op: u16) -> u8 {
    ((op / 0x200) % 8) as u8
}

/// The power of two for an effective-address class bit; the classes occupy
/// bits 0..=11.
pub open spec fn ea_class_pow(b: int) -> u16 {
    if b == 0 {
        1
    } else if b == 1 {
        2
    } else if b == 2 {
        4
    } else if b == 3 {
        8
    } else if b == 4 {
        16
    } else if b == 5 {
        32
    } else if b == 6 {
        64
    } else if b == 7 {
        128
    } else if b == 8 {
        256
    } else if b == 9 {
        512
    } else if b == 10 {
        1024
    } else {
        2048
    }
}

/// The class bit of an effective address: its mode for modes 0..=6, and
/// 7 + register for the mode-7 forms.
pub open spec fn ea_bit(mode: u8, reg: u8) -> int {
    if mode < 7 {
        mode as int
    } else {
        7 + reg
    }
}

/// Whether the addressing mode named by the fields belongs to the classes
/// of `mask`.
pub open spec fn ea_in_mask(mode: u8, reg: u8, mask: u16) -> bool {
    ea_bit(mode, reg) <= 11 && (mask / ea_class_pow(ea_bit(mode, reg))) % 2 == 1
}

/// Whether the addressing mode named by the fields belongs to the classes
/// of `mask`.
pub fn ea_allowed(mode: u8, reg: u8, mask: u16) -> (r: bool)
    requires
        mode <= 7,
        reg <= 7,
    ensures
        r == ea_in_mask(mode, reg, mask),
{
    let b: u16 = if mode < 7 {
        mode as u16
    } else {
        7 + reg as u16
    };
    if b > 11 {
        return false;
    }
    let p: u16 = match b {
        0 => 1,
        1 => 2,
        2 => 4,
        3 => 8,
        4 => 16,
        5 => 32,
        6 => 64,
        7 => 128,
        8 => 256,
        9 => 512,
        10 => 1024,
        _ => 2048,
    };
    (mask / p) % 2 == 1
}

/// The row's post-mask check of the opcode word's address fields.
pub open spec fn s_validates(row: OpcodeInfo, op: u16) -> bool {
    match row.validator {
        Validator::Ea => ea_in_mask(src_mode(op), src_reg(op), row.ea_mask),
        Validator::EaEa => ea_in_mask(src_mode(op), src_reg(op), EA_ALL) && ea_in_mask(
            dst_mode(op),
            dst_reg(op),
            row.ea_mask,
        ),
    }
}

/// Whether a table row accepts the opcode word: the masked bits match and
/// the validator passes.
pub open spec fn row_accepts(row: OpcodeInfo, op: u16) -> bool {
    (op as u32) & row.mask == row.matching && s_validates(row, op)
}

/// The first row at or after `i` that accepts `op`.
pub open spec fn first_match_from(t: Seq<OpcodeInfo>, op: u16, i: int) -> Option<int>
    decreases t.len() - i,
{
    if i < 0 || i >= t.len() {
        None
    } else if row_accepts(t[i], op) {
        Some(i)
    } else {
        first_match_from(t, op, i + 1)
    }
}

/// A search that has rejected every row before `i` finds the same first
/// match whether it starts at 0 or at `i`.
pub proof fn lemma_first_match_prefix(t: Seq<OpcodeInfo>, op: u16, i: int)
    requires
        0 <= i <= t.len(),
        forall|j: int| 0 <= j < i ==> !row_accepts(t[j], op),
    ensures
        first_match_from(t, op, 0) == first_match_from(t, op, i),
    decreases i,
{
    if i > 0 {
        lemma_first_match_prefix(t, op, i - 1);
    }
}

/// The effective-address fields of the operands a decoder kind reads, in
/// operand order; a trailing status register carries no field.
pub open spec fn decode_fields(d: Decoder, op: u16) -> Seq<(u8, u8)> {
    match d {
        Decoder::DxEa => seq![(0u8, dst_reg(op)), (src_mode(op), src_reg(op))],
        Decoder::EaDx => seq![(src_mode(op), src_reg(op)), (0u8, dst_reg(op))],
        Decoder::EaAx => seq![(src_mode(op), src_reg(op)), (1u8, dst_reg(op))],
        Decoder::ImmEa => seq![(7u8, 4u8), (src_mode(op), src_reg(op))],
        Decoder::EaEa => seq![(src_mode(op), src_reg(op)), (dst_mode(op), dst_reg(op))],
        Decoder::EaSr => seq![(src_mode(op), src_reg(op))],
        Decoder::EaCcr => seq![(src_mode(op), src_reg(op))],
    }
}

/// Whether a word can be read at the (mathematical) address `a`.
pub open spec fn w_ok(mem: MemoryVec, a: int) -> bool {
    0 <= a && a + 1 <= u32::MAX && mem.base() <= a && a + 1 - mem.base()
        < mem.view_bytes().len()
}

/// The word at the (mathematical) address `a`.
pub open spec fn w_at(mem: MemoryVec, a: int) -> u16 {
    crate::memory::word_of(
        mem.view_bytes()[a - mem.base()],
        mem.view_bytes()[a + 1 - mem.base()],
    )
}

/// Decode one operand per effective-address field, each reading its
/// extension words from memory at the running cursor; `None` when a field is
/// unassigned or the image ends too soon. Returns the operands and the
/// address past the last extension word.
pub open spec fn decode_ops_mem(fields: Seq<(u8, u8)>, size: Size, mem: MemoryVec, a: int) -> Option<
    (Seq<Operand>, int),
>
    decreases fields.len(),
{
    if fields.len() == 0 {
        Some((Seq::<Operand>::empty(), a))
    } else {
        let m = fields[0].0;
        let r = fields[0].1;
        let cnt = ea_ext_count(m, r, size);
        let ok1 = cnt < 1 || w_ok(mem, a);
        let ok2 = cnt < 2 || w_ok(mem, a + 2);
        let w1 = if cnt >= 1 && w_ok(mem, a) {
            w_at(mem, a)
        } else {
            0u16
        };
        let w2 = if cnt >= 2 && w_ok(mem, a + 2) {
            w_at(mem, a + 2)
        } else {
            0u16
        };
        if !(ok1 && ok2) {
            None
        } else {
            match operand_from_ea(m, r, size, w1, w2) {
                None => None,
                Some(o) => match decode_ops_mem(fields.skip(1), size, mem, a + 2 * cnt) {
                    None => None,
                    Some((ops, end)) => Some((seq![o] + ops, end)),
                },
            }
        }
    }
}

/// The operands a row decodes for opcode word `op`, extension words read
/// from `a` on: the fields' operands, plus the status register the MOVE-to
/// forms name implicitly.
pub open spec fn decoded_operands(row: OpcodeInfo, op: u16, mem: MemoryVec, a: int) -> Option<
    (Seq<Operand>, int),
> {
    match decode_ops_mem(decode_fields(row.decoder, op), row.size, mem, a) {
        None => None,
        Some((ops, end)) => match row.decoder {
            Decoder::EaSr => Some((ops + seq![Operand::StatusRegister(Size::Word)], end)),
            Decoder::EaCcr => Some((ops + seq![Operand::StatusRegister(Size::Byte)], end)),
            _ => Some((ops, end)),
        },
    }
}

/// What the disassembler finds at `pc`: the first accepting table row and
/// the operands it decodes, or `None` when no row accepts the word there or
/// the image ends inside the instruction.
pub open spec fn sdisasm(mem: MemoryVec, pc: u32) -> Option<(int, Seq<Operand>, int)> {
    if !w_ok(mem, pc as int) {
        None
    } else {
        let op = w_at(mem, pc as int);
        match first_match_from(spec_table(), op, 0) {
            None => None,
            Some(i) => match decoded_operands(spec_table()[i], op, mem, pc + 2) {
                None => None,
                Some((ops, end)) => Some((i, ops, end)),
            },
        }
    }
}

/// Decode the operands for the given fields, advancing through memory from
/// `pc`.
fn parse_fields(fields: &Vec<(u8, u8)>, i: usize, size: Size, pc: u32, mem: &MemoryVec) -> (r:
    Option<(Vec<Operand>, u32)>)
    requires
        forall|j: int| 0 <= j < fields@.len() ==> (#[trigger] fields@[j]).0 <= 7 && fields@[j].1
            <= 7,
        i <= fields@.len(),
        pc + 4 * (fields@.len() - i) + 4 <= u32::MAX,
    ensures
        ({
            let d = decode_ops_mem(fields@.skip(i as int), size, *mem, pc as int);
            match r {
                Some((ops, npc)) => d matches Some(de) && ops@ == de.0 && npc == de.1,
                None => d is None,
            }
        }),
    decreases fields@.len() - i,
{
    if i == fields.len() {
        proof {
            assert(fields@.skip(i as int) =~= Seq::<(u8, u8)>::empty());
        }
        Some((Vec::new(), pc))
    } else {
        let (m, r) = fields[i];
        match Operand::parse_extension(m, r, size, pc, mem) {
            None => {
                proof {
                    assert(fields@.skip(i as int)[0] == fields@[i as int]);
                }
                None
            },
            Some((o, npc)) => {
                match parse_fields(fields, i + 1, size, npc, mem) {
                    None => {
                        proof {
                            assert(fields@.skip(i as int)[0] == fields@[i as int]);
                            assert(fields@.skip(i as int).skip(1) =~= fields@.skip(i + 1));
                        }
                        None
                    },
                    Some((rest, end)) => {
                        let mut ops: Vec<Operand> = Vec::new();
                        ops.push(o);
                        let mut k: usize = 0;
                        while k < rest.len()
                            invariant
                                k <= rest@.len(),
                                ops@ == seq![o] + rest@.take(k as int),
                            decreases rest@.len() - k,
                        {
                            ops.push(rest[k]);
                            proof {
                                assert(ops@ =~= seq![o] + rest@.take(k + 1));
                            }
                            k += 1;
                        }
                        proof {
                            assert(rest@.take(rest@.len() as int) =~= rest@);
                            assert(fields@.skip(i as int)[0] == fields@[i as int]);
                            assert(fields@.skip(i as int).skip(1) =~= fields@.skip(i + 1));
                        }
                        Some((ops, end))
                    },
                }
            },
        }
    }
}

/// Disassemble the instruction whose opcode word sits at `pc`: the first
/// table row whose mask and validator accept it decodes the operands. An
/// unmatched word, or one whose extension words run past the end of the
/// image, is an `IllegalInstruction` at `pc`.
pub fn disassemble(pc: u32, mem: &MemoryVec) -> (r: Result<OpcodeInstance, Exception>)
    requires
        pc + 16 <= u32::MAX,
    ensures
        ({
            match r {
                Ok(inst) => {
                    &&& sdisasm(*mem, pc) matches Some((i, ops, _))
                    &&& inst.mnemonic@ == spec_table()[sdisasm(*mem, pc)->Some_0.0].mnemonic@
                    &&& inst.size == spec_table()[sdisasm(*mem, pc)->Some_0.0].size
                    &&& inst.operands@ == sdisasm(*mem, pc)->Some_0.1
                },
                Err(e) => {
                    &&& sdisasm(*mem, pc) is None
                    &&& e matches Exception::IllegalInstruction(_, at) && at == pc
                },
            }
        }),
{
    let opw = match mem.read_word_checked(pc) {
        Some(w) => w,
        None => {
            return Err(Exception::IllegalInstruction(0, pc));
        },
    };
    let table = generate();
    let mut i: usize = 0;
    while i < table.len()
        invariant
            table@ == spec_table(),
            i <= table@.len(),
            forall|j: int| 0 <= j < i ==> !row_accepts(table@[j], opw),
            mem.word_readable(pc),
            opw == w_at(*mem, pc as int),
            pc + 16 <= u32::MAX,
        decreases table@.len() - i,
    {
        let row = table[i];
        let masked = (opw as u32) & row.mask;
        let valid = if masked == row.matching {
            match row.validator {
                Validator::Ea => ea_allowed(src_mode_of(opw), src_reg_of(opw), row.ea_mask),
                Validator::EaEa => ea_allowed(src_mode_of(opw), src_reg_of(opw), 0x0FFF)
                    && ea_allowed(dst_mode_of(opw), dst_reg_of(opw), row.ea_mask),
            }
        } else {
            false
        };
        if valid {
            proof {
                lemma_first_match_prefix(spec_table(), opw, i as int);
            }
            let fields = fields_of(row.decoder, opw);
            match parse_fields(&fields, 0, row.size, pc + 2, mem) {
                None => {
                    proof {
                        assert(fields@.skip(0) =~= fields@);
                    }
                    return Err(Exception::IllegalInstruction(opw, pc));
                },
                Some((mut ops, _end)) => {
                    proof {
                        assert(fields@.skip(0) =~= fields@);
                    }
                    match row.decoder {
                        Decoder::EaSr => ops.push(Operand::StatusRegister(Size::Word)),
                        Decoder::EaCcr => ops.push(Operand::StatusRegister(Size::Byte)),
                        _ => (),
                    }
                    let inst = OpcodeInstance {
                        mnemonic: row.mnemonic.to_owned(),
                        size: row.size,
                        operands: ops,
                    };
                    return Ok(inst);
                },
            }
        }
        i += 1;
    }
    proof {
        lemma_first_match_prefix(spec_table(), opw, spec_table().len() as int);
    }
    Err(Exception::IllegalInstruction(opw, pc))
}

/// Disassemble the first instruction of the image, at its base address.
pub fn disassemble_first(mem: &MemoryVec) -> (r: OpcodeInstance)
    requires
        mem.base() + 16 <= u32::MAX,
        sdisasm(*mem, mem.base()) is Some,
    ensures
        r.mnemonic@ == spec_table()[sdisasm(*mem, mem.base())->Some_0.0].mnemonic@,
        r.size == spec_table()[sdisasm(*mem, mem.base())->Some_0.0].size,
        r.operands@ == sdisasm(*mem, mem.base())->Some_0.1,
{
    let base = mem.offset();
    match disassemble(base, mem) {
        Ok(inst) => inst,
        Err(_) => vstd::pervasive::unreached(),
    }
}

/// The source mode field, bits 5..=3.
fn src_mode_of(op: u16) -> (r: u8)
    ensures
        r == src_mode(op),
        r <= 7,
{
    ((op / 8) % 8) as u8
}

/// The source register field, bits 2..=0.
fn src_reg_of(op: u16) -> (r: u8)
    ensures
        r == src_reg(op),
        r <= 7,
{
    (op % 8) as u8
}

/// The destination mode field, bits 8..=6.
fn dst_mode_of(op: u16) -> (r: u8)
    ensures
        r == dst_mode(op),
        r <= 7,
{
    ((op / 0x40) % 8) as u8
}

/// The destination (or single) register field, bits 11..=9.
fn dst_reg_of(op: u16) -> (r: u8)
    ensures
        r == dst_reg(op),
        r <= 7,
{
    ((op / 0x200) % 8) as u8
}

/// The effective-address fields a decoder kind reads, in operand order.
fn fields_of(d: Decoder, op: u16) -> (r: Vec<(u8, u8)>)
    ensures
        r@ == decode_fields(d, op),
        forall|j: int| 0 <= j < r@.len() ==> (#[trigger] r@[j]).0 <= 7 && r@[j].1 <= 7,
        r@.len() <= 2,
{
    let mut v: Vec<(u8, u8)> = Vec::new();
    match d {
        Decoder::DxEa => {
            v.push((0, dst_reg_of(op)));
            v.push((src_mode_of(op), src_reg_of(op)));
        },
        Decoder::EaDx => {
            v.push((src_mode_of(op), src_reg_of(op)));
            v.push((0, dst_reg_of(op)));
        },
        Decoder::EaAx => {
            v.push((src_mode_of(op), src_reg_of(op)));
            v.push((1, dst_reg_of(op)));
        },
        Decoder::ImmEa => {
            v.push((7, 4));
            v.push((src_mode_of(op), src_reg_of(op)));
        },
        Decoder::EaEa => {
            v.push((src_mode_of(op), src_reg_of(op)));
            v.push((dst_mode_of(op), dst_reg_of(op)));
        },
        Decoder::EaSr => {
            v.push((src_mode_of(op), src_reg_of(op)));
        },
        Decoder::EaCcr => {
            v.push((src_mode_of(op), src_reg_of(op)));
        },
    }
    proof {
        assert(v@ =~= decode_fields(d, op));
    }
    v
}

} // verus!
