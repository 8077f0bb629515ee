//! A Motorola 68000 assembler and disassembler core.
//!
//! The crate parses one line of assembly source into a statement (an
//! instruction, a directive or a label), evaluates the arithmetic expression
//! sublanguage, and maps structured instructions to and from their 16-bit
//! opcode and extension words through a table-driven encoder/decoder pair.
//! A two-pass driver assembles whole programs into a byte-addressed memory
//! image; the disassembler walks such an image back into text.

use vstd::prelude::*;

pub mod constants;
pub mod expr;
pub mod memory;
pub mod text;
pub mod operand;
pub mod disassembler;
pub mod assembler;
pub mod roundtrip;

use crate::constants::{
    MASK_OUT_X_EA, MASK_OUT_EA, MASK_OUT_EA_EA, OP_ADD, OP_ADDI, OP_MOVE, OP_MOVE2, BYTE_SIZED,
    WORD_SIZED, LONG_SIZED, DEST_DX, DEST_EA, DEST_AX_WORD, DEST_AX_LONG, BYTE_MOVE, WORD_MOVE,
    LONG_MOVE, MOVE_TO_AN, MOVE_TO_SR, MOVE_TO_CCR, EA_ALL, EA_ALL_EXCEPT_AN, EA_DATA,
    EA_DATA_ALTERABLE, EA_MEMORY_ALTERABLE,
};
use crate::operand::{Operand, wf_operand, ext_words, operand_text};

verus! {

/// An operand or instruction size tag. `Unsized` means the source gave no
/// explicit size; the assembler resolves it before encoding, the
/// disassembler never produces it.
#[derive(Clone, Copy, Debug, PartialEq, Eq, Structural)]
pub enum Size {
    Unsized,
    Byte,
    Word,
    Long,
}

/// The textual suffix that announces a size in assembly source.
pub open spec fn size_suffix(s: Size) -> Seq<char> {
    match s {
        Size::Unsized => Seq::<char>::empty(),
        Size::Byte => ".B"@,
        Size::Word => ".W"@,
        Size::Long => ".L"@,
    }
}

impl Size {
    /// The suffix used when printing this size: empty, `.B`, `.W` or `.L`.
    pub fn to_text(&self) -> (r: String)
        ensures
            r@ == size_suffix(*self),
    {
        proof {
            reveal_strlit("");
            reveal_strlit(".B");
            reveal_strlit(".W");
            reveal_strlit(".L");
        }
        match *self {
            Size::Unsized => "".to_owned(),
            Size::Byte => ".B".to_owned(),
            Size::Word => ".W".to_owned(),
            Size::Long => ".L".to_owned(),
        }
    }
}

/// The disassembler's failure: no opcode-table row accepts the 16-bit word
/// `ir` found at address `pc`.
#[derive(Debug)]
pub enum Exception {
    IllegalInstruction(u16, u32),
}

/// The comma-separated text of an operand list.
pub open spec fn operands_text(ops: Seq<Operand>) -> Seq<char>
    decreases ops.len(),
{
    if ops.len() == 0 {
        Seq::<char>::empty()
    } else if ops.len() == 1 {
        operand_text(ops[0])
    } else {
        operands_text(ops.drop_last()) + seq![','] + operand_text(ops.last())
    }
}

/// The canonical text of an instruction: mnemonic, size suffix, and the
/// operands after one tab.
pub open spec fn inst_text(m: Seq<char>, size: Size, ops: Seq<Operand>) -> Seq<char> {
    m + size_suffix(size) + (if ops.len() == 0 {
        Seq::<char>::empty()
    } else {
        seq!['\t'] + operands_text(ops)
    })
}

/// The number of 16-bit extension words an operand occupies on its own
/// account, an immediate at its own recorded size.
pub open spec fn own_ext_len(o: Operand) -> int {
    match o {
        Operand::Immediate(s, _) => ext_words(o, s).len() as int,
        _ => ext_words(o, Size::Word).len() as int,
    }
}

/// The total extension words of an operand list.
pub open spec fn sum_ext_len(ops: Seq<Operand>) -> int
    decreases ops.len(),
{
    if ops.len() == 0 {
        0
    } else {
        sum_ext_len(ops.drop_last()) + own_ext_len(ops.last())
    }
}

/// One parsed or decoded instruction: a mnemonic, a size tag, and its
/// operands in source order. Equality is by these three fields.
#[derive(Debug, PartialEq)]
pub struct OpcodeInstance {
    pub mnemonic: String,
    pub size: Size,
    pub operands: Vec<Operand>,
}

impl Clone for OpcodeInstance {
    /// A copy whose three fields equal the original's.
    fn clone(&self) -> (r: Self)
        ensures
            r.mnemonic@ == self.mnemonic@,
            r.size == self.size,
            r.operands@ == self.operands@,
    {
        let mut ops: Vec<Operand> = Vec::new();
        let mut i: usize = 0;
        while i < self.operands.len()
            invariant
                i <= self.operands@.len(),
                ops@ == self.operands@.take(i as int),
            decreases self.operands@.len() - i,
        {
            ops.push(self.operands[i]);
            proof {
                assert(ops@ =~= self.operands@.take(i + 1));
            }
            i += 1;
        }
        proof {
            assert(self.operands@.take(self.operands@.len() as int) =~= self.operands@);
        }
        OpcodeInstance { mnemonic: self.mnemonic.clone(), size: self.size, operands: ops }
    }
}

impl OpcodeInstance {
    /// The instruction's length in 16-bit words: one for the opcode word
    /// plus each operand's extension words.
    pub fn length(&self) -> (r: u32)
        requires
            1 + 2 * self.operands@.len() <= u32::MAX,
        ensures
            r == 1 + sum_ext_len(self.operands@),
    {
        let mut total: u32 = 1;
        let mut i: usize = 0;
        while i < self.operands.len()
            invariant
                i <= self.operands@.len(),
                total == 1 + sum_ext_len(self.operands@.take(i as int)),
                total <= 1 + 2 * i,
                1 + 2 * self.operands@.len() <= u32::MAX,
            decreases self.operands@.len() - i,
        {
            let w = self.operands[i].extension_words();
            proof {
                assert(self.operands@.take(i + 1).drop_last() =~= self.operands@.take(i as int));
                assert(self.operands@.take(i + 1).last() == self.operands@[i as int]);
            }
            total = total + w;
            i += 1;
        }
        proof {
            assert(self.operands@.take(self.operands@.len() as int) =~= self.operands@);
        }
        total
    }

    /// Print the instruction as the assembler reads it back:
    /// `MNEMONIC[.SZ]\tOPERAND[,OPERAND]`.
    pub fn to_text(&self) -> (r: String)
        requires
            forall|i: int| 0 <= i < self.operands@.len() ==> wf_operand(self.operands@[i]),
        ensures
            r@ == inst_text(self.mnemonic@, self.size, self.operands@),
    {
        proof {
            reveal_strlit("\t");
            reveal_strlit(",");
        }
        let mut s = self.mnemonic.clone();
        s.append(self.size.to_text().as_str());
        if self.operands.len() > 0 {
            s.append("\t");
            s.append(self.operands[0].to_text().as_str());
            let mut i: usize = 1;
            while i < self.operands.len()
                invariant
                    1 <= i <= self.operands@.len(),
                    forall|j: int|
                        0 <= j < self.operands@.len() ==> wf_operand(self.operands@[j]),
                    s@ == self.mnemonic@ + size_suffix(self.size) + seq!['\t'] + operands_text(
                        self.operands@.take(i as int),
                    ),
                decreases self.operands@.len() - i,
            {
                s.append(",");
                s.append(self.operands[i].to_text().as_str());
                proof {
                    reveal_strlit(",");
                    let prev = self.operands@.take(i as int);
                    let cur = self.operands@.take(i + 1);
                    assert(cur.drop_last() =~= prev);
                    assert(cur.last() == self.operands@[i as int]);
                    assert(cur.len() >= 2);
                    assert(operands_text(cur) == operands_text(prev) + seq![','] + operand_text(
                        self.operands@[i as int],
                    ));
                    assert(s@ =~= self.mnemonic@ + size_suffix(self.size) + seq!['\t']
                        + operands_text(cur));
                }
                i += 1;
            }
            proof {
                assert(self.operands@.take(self.operands@.len() as int) =~= self.operands@);
                assert(s@ =~= inst_text(self.mnemonic@, self.size, self.operands@));
            }
            s
        } else {
            proof {
                assert(s@ =~= inst_text(self.mnemonic@, self.size, self.operands@));
            }
            s
        }
    }
}

/// The post-mask check a table row applies to a candidate opcode word.
#[derive(Clone, Copy, Debug, PartialEq, Eq, Structural)]
pub enum Validator {
    /// The low effective-address field must fall within the row's EA mask.
    Ea,
    /// MOVE: the source field within `EA_ALL`, the destination field within
    /// the row's EA mask.
    EaEa,
}

/// Which operand forms a row decodes, named by the operand order.
#[derive(Clone, Copy, Debug, PartialEq, Eq, Structural)]
pub enum Decoder {
    DxEa,
    EaDx,
    EaAx,
    ImmEa,
    EaEa,
    EaSr,
    EaCcr,
}

/// How a row assembles its opcode word from a parsed instance.
#[derive(Clone, Copy, Debug, PartialEq, Eq, Structural)]
pub enum Encoder {
    DxEa,
    EaDx,
    EaAx,
    ImmEa,
    EaEa,
    JustEa,
}

/// Which parsed instances a row accepts for assembly.
#[derive(Clone, Copy, Debug, PartialEq, Eq, Structural)]
pub enum Selector {
    DxEa,
    EaDx,
    EaAx,
    ImmEa,
    EaEa,
    EaSr,
    EaCcr,
}

/// One row of the opcode table. A 16-bit word `op` matches the row iff
/// `op & mask == matching` and the validator accepts its effective-address
/// fields against `ea_mask`.
#[derive(Clone, Copy, Debug)]
pub struct OpcodeInfo {
    pub mask: u32,
    pub matching: u32,
    pub ea_mask: u16,
    pub size: Size,
    pub mnemonic: &'static str,
    pub validator: Validator,
    pub decoder: Decoder,
    pub encoder: Encoder,
    pub selector: Selector,
}

/// One row of the opcode table, by index.
pub open spec fn table_row(j: int) -> OpcodeInfo {
    if j == 0 {
        OpcodeInfo {
            mask: MASK_OUT_X_EA,
            matching: OP_ADD | BYTE_SIZED | DEST_EA,
            ea_mask: EA_MEMORY_ALTERABLE,
            size: Size::Byte,
            mnemonic: "ADD",
            validator: Validator::Ea,
            decoder: Decoder::DxEa,
            encoder: Encoder::DxEa,
            selector: Selector::DxEa,
        }
    } else if j == 1 {
        OpcodeInfo {
            mask: MASK_OUT_X_EA,
            matching: OP_ADD | BYTE_SIZED | DEST_DX,
            ea_mask: EA_ALL_EXCEPT_AN,
            size: Size::Byte,
            mnemonic: "ADD",
            validator: Validator::Ea,
            decoder: Decoder::EaDx,
            encoder: Encoder::EaDx,
            selector: Selector::EaDx,
        }
    } else if j == 2 {
        OpcodeInfo {
            mask: MASK_OUT_X_EA,
            matching: OP_ADD | WORD_SIZED | DEST_EA,
            ea_mask: EA_MEMORY_ALTERABLE,
            size: Size::Word,
            mnemonic: "ADD",
            validator: Validator::Ea,
            decoder: Decoder::DxEa,
            encoder: Encoder::DxEa,
            selector: Selector::DxEa,
        }
    } else if j == 3 {
        OpcodeInfo {
            mask: MASK_OUT_X_EA,
            matching: OP_ADD | WORD_SIZED | DEST_DX,
            ea_mask: EA_ALL,
            size: Size::Word,
            mnemonic: "ADD",
            validator: Validator::Ea,
            decoder: Decoder::EaDx,
            encoder: Encoder::EaDx,
            selector: Selector::EaDx,
        }
    } else if j == 4 {
        OpcodeInfo {
            mask: MASK_OUT_X_EA,
            matching: OP_ADD | LONG_SIZED | DEST_EA,
            ea_mask: EA_MEMORY_ALTERABLE,
            size: Size::Long,
            mnemonic: "ADD",
            validator: Validator::Ea,
            decoder: Decoder::DxEa,
            encoder: Encoder::DxEa,
            selector: Selector::DxEa,
        }
    } else if j == 5 {
        OpcodeInfo {
            mask: MASK_OUT_X_EA,
            matching: OP_ADD | LONG_SIZED | DEST_DX,
            ea_mask: EA_ALL,
            size: Size::Long,
            mnemonic: "ADD",
            validator: Validator::Ea,
            decoder: Decoder::EaDx,
            encoder: Encoder::EaDx,
            selector: Selector::EaDx,
        }
    } else if j == 6 {
        OpcodeInfo {
            mask: MASK_OUT_X_EA,
            matching: OP_ADD | DEST_AX_WORD,
            ea_mask: EA_ALL,
            size: Size::Word,
            mnemonic: "ADDA",
            validator: Validator::Ea,
            decoder: Decoder::EaAx,
            encoder: Encoder::EaAx,
            selector: Selector::EaAx,
        }
    } else if j == 7 {
        OpcodeInfo {
            mask: MASK_OUT_X_EA,
            matching: OP_ADD | DEST_AX_LONG,
            ea_mask: EA_ALL,
            size: Size::Long,
            mnemonic: "ADDA",
            validator: Validator::Ea,
            decoder: Decoder::EaAx,
            encoder: Encoder::EaAx,
            selector: Selector::EaAx,
        }
    } else if j == 8 {
        OpcodeInfo {
            mask: MASK_OUT_EA,
            matching: OP_ADDI | BYTE_SIZED,
            ea_mask: EA_DATA_ALTERABLE,
            size: Size::Byte,
            mnemonic: "ADDI",
            validator: Validator::Ea,
            decoder: Decoder::ImmEa,
            encoder: Encoder::ImmEa,
            selector: Selector::ImmEa,
        }
    } else if j == 9 {
        OpcodeInfo {
            mask: MASK_OUT_EA,
            matching: OP_ADDI | WORD_SIZED,
            ea_mask: EA_DATA_ALTERABLE,
            size: Size::Word,
            mnemonic: "ADDI",
            validator: Validator::Ea,
            decoder: Decoder::ImmEa,
            encoder: Encoder::ImmEa,
            selector: Selector::ImmEa,
        }
    } else if j == 10 {
        OpcodeInfo {
            mask: MASK_OUT_EA,
            matching: OP_ADDI | LONG_SIZED,
            ea_mask: EA_DATA_ALTERABLE,
            size: Size::Long,
            mnemonic: "ADDI",
            validator: Validator::Ea,
            decoder: Decoder::ImmEa,
            encoder: Encoder::ImmEa,
            selector: Selector::ImmEa,
        }
    } else if j == 11 {
        OpcodeInfo {
            mask: MASK_OUT_EA,
            matching: OP_MOVE | WORD_MOVE | MOVE_TO_AN,
            ea_mask: EA_DATA_ALTERABLE,
            size: Size::Word,
            mnemonic: "MOVEA",
            validator: Validator::Ea,
            decoder: Decoder::EaEa,
            encoder: Encoder::EaEa,
            selector: Selector::EaEa,
        }
    } else if j == 12 {
        OpcodeInfo {
            mask: MASK_OUT_EA,
            matching: OP_MOVE | LONG_MOVE | MOVE_TO_AN,
            ea_mask: EA_DATA_ALTERABLE,
            size: Size::Long,
            mnemonic: "MOVEA",
            validator: Validator::Ea,
            decoder: Decoder::EaEa,
            encoder: Encoder::EaEa,
            selector: Selector::EaEa,
        }
    } else if j == 13 {
        OpcodeInfo {
            mask: MASK_OUT_EA,
            matching: OP_MOVE2 | MOVE_TO_SR,
            ea_mask: EA_DATA,
            size: Size::Word,
            mnemonic: "MOVE",
            validator: Validator::Ea,
            decoder: Decoder::EaSr,
            encoder: Encoder::JustEa,
            selector: Selector::EaSr,
        }
    } else if j == 14 {
        OpcodeInfo {
            mask: MASK_OUT_EA,
            matching: OP_MOVE2 | MOVE_TO_CCR,
            ea_mask: EA_DATA,
            size: Size::Word,
            mnemonic: "MOVE",
            validator: Validator::Ea,
            decoder: Decoder::EaCcr,
            encoder: Encoder::JustEa,
            selector: Selector::EaCcr,
        }
    } else if j == 15 {
        OpcodeInfo {
            mask: MASK_OUT_EA_EA,
            matching: OP_MOVE | BYTE_MOVE,
            ea_mask: EA_DATA_ALTERABLE,
            size: Size::Byte,
            mnemonic: "MOVE",
            validator: Validator::EaEa,
            decoder: Decoder::EaEa,
            encoder: Encoder::EaEa,
            selector: Selector::EaEa,
        }
    } else if j == 16 {
        OpcodeInfo {
            mask: MASK_OUT_EA_EA,
            matching: OP_MOVE | WORD_MOVE,
            ea_mask: EA_DATA_ALTERABLE,
            size: Size::Word,
            mnemonic: "MOVE",
            validator: Validator::EaEa,
            decoder: Decoder::EaEa,
            encoder: Encoder::EaEa,
            selector: Selector::EaEa,
        }
    } else {
        OpcodeInfo {
            mask: MASK_OUT_EA_EA,
            matching: OP_MOVE | LONG_MOVE,
            ea_mask: EA_DATA_ALTERABLE,
            size: Size::Long,
            mnemonic: "MOVE",
            validator: Validator::EaEa,
            decoder: Decoder::EaEa,
            encoder: Encoder::EaEa,
            selector: Selector::EaEa,
        }
    }
}

/// The opcode table: ADD, ADDA, ADDI, MOVEA and MOVE, the form-specific
/// rows ahead of the general ones so that the first match is the intended
/// one in both directions.
pub open spec fn spec_table() -> Seq<OpcodeInfo> {
    Seq::new(18, |j: int| table_row(j))
}

/// Build the opcode table, row for row as `spec_table` lists it.
pub fn generate() -> (r: Vec<OpcodeInfo>)
    ensures
        r@ == spec_table(),
{
    let mut v: Vec<OpcodeInfo> = Vec::new();
    v.push(
        OpcodeInfo {
            mask: MASK_OUT_X_EA,
            matching: OP_ADD | BYTE_SIZED | DEST_EA,
            ea_mask: EA_MEMORY_ALTERABLE,
            size: Size::Byte,
            mnemonic: "ADD",
            validator: Validator::Ea,
            decoder: Decoder::DxEa,
            encoder: Encoder::DxEa,
            selector: Selector::DxEa,
        },
    );
    v.push(
        OpcodeInfo {
            mask: MASK_OUT_X_EA,
            matching: OP_ADD | BYTE_SIZED | DEST_DX,
            ea_mask: EA_ALL_EXCEPT_AN,
            size: Size::Byte,
            mnemonic: "ADD",
            validator: Validator::Ea,
            decoder: Decoder::EaDx,
            encoder: Encoder::EaDx,
            selector: Selector::EaDx,
        },
    );
    v.push(
        OpcodeInfo {
            mask: MASK_OUT_X_EA,
            matching: OP_ADD | WORD_SIZED | DEST_EA,
            ea_mask: EA_MEMORY_ALTERABLE,
            size: Size::Word,
            mnemonic: "ADD",
            validator: Validator::Ea,
            decoder: Decoder::DxEa,
            encoder: Encoder::DxEa,
            selector: Selector::DxEa,
        },
    );
    v.push(
        OpcodeInfo {
            mask: MASK_OUT_X_EA,
            matching: OP_ADD | WORD_SIZED | DEST_DX,
            ea_mask: EA_ALL,
            size: Size::Word,
            mnemonic: "ADD",
            validator: Validator::Ea,
            decoder: Decoder::EaDx,
            encoder: Encoder::EaDx,
            selector: Selector::EaDx,
        },
    );
    v.push(
        OpcodeInfo {
            mask: MASK_OUT_X_EA,
            matching: OP_ADD | LONG_SIZED | DEST_EA,
            ea_mask: EA_MEMORY_ALTERABLE,
            size: Size::Long,
            mnemonic: "ADD",
            validator: Validator::Ea,
            decoder: Decoder::DxEa,
            encoder: Encoder::DxEa,
            selector: Selector::DxEa,
        },
    );
    v.push(
        OpcodeInfo {
            mask: MASK_OUT_X_EA,
            matching: OP_ADD | LONG_SIZED | DEST_DX,
            ea_mask: EA_ALL,
            size: Size::Long,
            mnemonic: "ADD",
            validator: Validator::Ea,
            decoder: Decoder::EaDx,
            encoder: Encoder::EaDx,
            selector: Selector::EaDx,
        },
    );
    v.push(
        OpcodeInfo {
            mask: MASK_OUT_X_EA,
            matching: OP_ADD | DEST_AX_WORD,
            ea_mask: EA_ALL,
            size: Size::Word,
            mnemonic: "ADDA",
            validator: Validator::Ea,
            decoder: Decoder::EaAx,
            encoder: Encoder::EaAx,
            selector: Selector::EaAx,
        },
    );
    v.push(
        OpcodeInfo {
            mask: MASK_OUT_X_EA,
            matching: OP_ADD | DEST_AX_LONG,
            ea_mask: EA_ALL,
            size: Size::Long,
            mnemonic: "ADDA",
            validator: Validator::Ea,
            decoder: Decoder::EaAx,
            encoder: Encoder::EaAx,
            selector: Selector::EaAx,
        },
    );
    v.push(
        OpcodeInfo {
            mask: MASK_OUT_EA,
            matching: OP_ADDI | BYTE_SIZED,
            ea_mask: EA_DATA_ALTERABLE,
            size: Size::Byte,
            mnemonic: "ADDI",
            validator: Validator::Ea,
            decoder: Decoder::ImmEa,
            encoder: Encoder::ImmEa,
            selector: Selector::ImmEa,
        },
    );
    v.push(
        OpcodeInfo {
            mask: MASK_OUT_EA,
            matching: OP_ADDI | WORD_SIZED,
            ea_mask: EA_DATA_ALTERABLE,
            size: Size::Word,
            mnemonic: "ADDI",
            validator: Validator::Ea,
            decoder: Decoder::ImmEa,
            encoder: Encoder::ImmEa,
            selector: Selector::ImmEa,
        },
    );
    v.push(
        OpcodeInfo {
            mask: MASK_OUT_EA,
            matching: OP_ADDI | LONG_SIZED,
            ea_mask: EA_DATA_ALTERABLE,
            size: Size::Long,
            mnemonic: "ADDI",
            validator: Validator::Ea,
            decoder: Decoder::ImmEa,
            encoder: Encoder::ImmEa,
            selector: Selector::ImmEa,
        },
    );
    v.push(
        OpcodeInfo {
            mask: MASK_OUT_EA,
            matching: OP_MOVE | WORD_MOVE | MOVE_TO_AN,
            ea_mask: EA_DATA_ALTERABLE,
            size: Size::Word,
            mnemonic: "MOVEA",
            validator: Validator::Ea,
            decoder: Decoder::EaEa,
            encoder: Encoder::EaEa,
            selector: Selector::EaEa,
        },
    );
    v.push(
        OpcodeInfo {
            mask: MASK_OUT_EA,
            matching: OP_MOVE | LONG_MOVE | MOVE_TO_AN,
            ea_mask: EA_DATA_ALTERABLE,
            size: Size::Long,
            mnemonic: "MOVEA",
            validator: Validator::Ea,
            decoder: Decoder::EaEa,
            encoder: Encoder::EaEa,
            selector: Selector::EaEa,
        },
    );
    v.push(
        OpcodeInfo {
            mask: MASK_OUT_EA,
            matching: OP_MOVE2 | MOVE_TO_SR,
            ea_mask: EA_DATA,
            size: Size::Word,
            mnemonic: "MOVE",
            validator: Validator::Ea,
            decoder: Decoder::EaSr,
            encoder: Encoder::JustEa,
            selector: Selector::EaSr,
        },
    );
    v.push(
        OpcodeInfo {
            mask: MASK_OUT_EA,
            matching: OP_MOVE2 | MOVE_TO_CCR,
            ea_mask: EA_DATA,
            size: Size::Word,
            mnemonic: "MOVE",
            validator: Validator::Ea,
            decoder: Decoder::EaCcr,
            encoder: Encoder::JustEa,
            selector: Selector::EaCcr,
        },
    );
    v.push(
        OpcodeInfo {
            mask: MASK_OUT_EA_EA,
            matching: OP_MOVE | BYTE_MOVE,
            ea_mask: EA_DATA_ALTERABLE,
            size: Size::Byte,
            mnemonic: "MOVE",
            validator: Validator::EaEa,
            decoder: Decoder::EaEa,
            encoder: Encoder::EaEa,
            selector: Selector::EaEa,
        },
    );
    v.push(
        OpcodeInfo {
            mask: MASK_OUT_EA_EA,
            matching: OP_MOVE | WORD_MOVE,
            ea_mask: EA_DATA_ALTERABLE,
            size: Size::Word,
            mnemonic: "MOVE",
            validator: Validator::EaEa,
            decoder: Decoder::EaEa,
            encoder: Encoder::EaEa,
            selector: Selector::EaEa,
        },
    );
    v.push(
        OpcodeInfo {
            mask: MASK_OUT_EA_EA,
            matching: OP_MOVE | LONG_MOVE,
            ea_mask: EA_DATA_ALTERABLE,
            size: Size::Long,
            mnemonic: "MOVE",
            validator: Validator::EaEa,
            decoder: Decoder::EaEa,
            encoder: Encoder::EaEa,
            selector: Selector::EaEa,
        },
    );
    proof {
        assert(v@ =~= spec_table());
    }
    v
}

} // verus!
