//! The round-trip law of the codec: an opcode word the disassembler
//! accepts, together with canonical extension words, is reproduced exactly
//! when its decoded instruction is handed back to the assembler's
//! dispatcher.

use vstd::prelude::*;
use crate::memory::MemoryVec;
use crate::operand::{
    Operand, operand_from_ea, ea_ext_count, ext_words, s_mode_bits, s_register_bits,
    lemma_operand_ext_roundtrip, wf_operand,
};
use crate::disassembler::{
    src_mode, src_reg, dst_mode, dst_reg, ea_in_mask, row_accepts, first_match_from,
    decode_fields, decode_ops_mem, decoded_operands, sdisasm, w_ok, w_at,
};
use crate::assembler::{
    ea6, s_opcode_word, enc_words, row_selects, first_sel_from, s_selects, is_ea_class,
    is_mem_alterable, is_data_alterable, lemma_first_sel_prefix,
};
use crate::{Size, OpcodeInfo, Validator, Decoder, Encoder, Selector, spec_table};
use crate::constants::{EA_DATA_ALTERABLE, EA_MEMORY_ALTERABLE, MASK_OUT_X_EA, MASK_OUT_EA, MASK_OUT_EA_EA};

verus! {

/// A masked match in 32 bits is the same match in 16 bits when the mask
/// and pattern fit there.
proof fn lemma_mask16(op: u16, mask: u32, matching: u32)
    requires
        mask <= 0xFFFF,
        matching <= 0xFFFF,
        (op as u32) & mask == matching,
    ensures
        op & ((mask & 0xFFFF) as u16) == ((matching & 0xFFFF) as u16),
{
    assert(op & ((mask & 0xFFFF) as u16) == ((matching & 0xFFFF) as u16)) by (bit_vector)
        requires
            mask <= 0xFFFF,
            matching <= 0xFFFF,
            (op as u32) & mask == matching,
    ;
}

/// Rebuilding an opcode of the one-register families: the kept bits, the
/// register field and the effective-address field together are the word.
proof fn lemma_rebuild_x_ea(op: u16, m: u16)
    requires
        op & 0xF1C0 == m,
    ensures
        m | ((((op / 0x200) % 8) as u16) << 9u16) | ((((op / 8) % 8) * 8 + op % 8) as u16)
            == op,
{
    assert(m | ((((op / 0x200) % 8) as u16) << 9u16) | ((((op / 8) % 8) * 8 + op
        % 8) as u16) == op) by (bit_vector)
        requires
            op & 0xF1C0 == m,
    ;
}

/// Rebuilding an opcode whose kept bits reach down to the address field.
proof fn lemma_rebuild_ea(op: u16, m: u16)
    requires
        op & 0xFFC0 == m,
    ensures
        m | ((((op / 8) % 8) * 8 + op % 8) as u16) == op,
{
    assert(m | ((((op / 8) % 8) * 8 + op % 8) as u16) == op) by (bit_vector)
        requires
            op & 0xFFC0 == m,
    ;
}

/// Rebuilding a MOVE opcode from its two address fields.
proof fn lemma_rebuild_ea_ea(op: u16, m: u16)
    requires
        op & 0xF000 == m,
    ensures
        m | ((((op / 0x200) % 8) as u16) << 9u16) | ((((op / 0x40) % 8) as u16) << 6u16) | ((((op
            / 8) % 8) * 8 + op % 8) as u16) == op,
{
    assert(m | ((((op / 0x200) % 8) as u16) << 9u16) | ((((op / 0x40) % 8) as u16) << 6u16) | ((((
    op / 8) % 8) * 8 + op % 8) as u16) == op) by (bit_vector)
        requires
            op & 0xF000 == m,
    ;
}


/// The word a MOVEA-family row keeps its destination fields in is rebuilt
/// unchanged when those same fields are folded back in.
proof fn lemma_rebuild_ea_keep_dst(op: u16, m: u16)
    requires
        op & 0xFFC0 == m,
    ensures
        m | ((((op / 0x200) % 8) as u16) << 9u16) | ((((op / 0x40) % 8) as u16) << 6u16) | ((((op
            / 8) % 8) * 8 + op % 8) as u16) == op,
{
    assert(m | ((((op / 0x200) % 8) as u16) << 9u16) | ((((op / 0x40) % 8) as u16) << 6u16) | ((((
    op / 8) % 8) * 8 + op % 8) as u16) == op) by (bit_vector)
        requires
            op & 0xFFC0 == m,
    ;
}

/// The row a successful table scan finds accepts the opcode word.
proof fn lemma_first_match_found(t: Seq<OpcodeInfo>, op: u16, i: int)
    requires
        0 <= i,
        first_match_from(t, op, i) is Some,
    ensures
        ({
            let j = first_match_from(t, op, i)->Some_0;
            &&& i <= j < t.len()
            &&& row_accepts(t[j], op)
        }),
    decreases t.len() - i,
{
    if i < t.len() && !row_accepts(t[i], op) {
        lemma_first_match_found(t, op, i + 1);
    }
}

/// A decoded effective address is never the status register, so it always
/// stands for an effective address.
proof fn lemma_from_ea_class(m: u8, r: u8, size: Size, w1: u16, w2: u16)
    requires
        operand_from_ea(m, r, size, w1, w2) is Some,
    ensures
        !(operand_from_ea(m, r, size, w1, w2)->Some_0 is StatusRegister),
        is_ea_class(operand_from_ea(m, r, size, w1, w2)->Some_0),
{
}

/// An effective address within the memory-alterable classes decodes to a
/// memory-alterable operand.
proof fn lemma_from_ea_mem_alterable(m: u8, r: u8, size: Size, w1: u16, w2: u16)
    requires
        m <= 7,
        r <= 7,
        ea_in_mask(m, r, EA_MEMORY_ALTERABLE),
        operand_from_ea(m, r, size, w1, w2) is Some,
    ensures
        is_mem_alterable(operand_from_ea(m, r, size, w1, w2)->Some_0),
{
    if m == 0 {
        assert(crate::disassembler::ea_bit(m, r) == 0);
        assert(crate::disassembler::ea_class_pow(0) == 1);
        assert((EA_MEMORY_ALTERABLE / 1u16) % 2 == 0);
        assert(!ea_in_mask(m, r, EA_MEMORY_ALTERABLE));
    }
    if m == 1 {
        assert(crate::disassembler::ea_bit(m, r) == 1);
        assert(crate::disassembler::ea_class_pow(1) == 2);
        assert((EA_MEMORY_ALTERABLE / 2u16) % 2 == 0);
        assert(!ea_in_mask(m, r, EA_MEMORY_ALTERABLE));
    }
    if m == 7 && r == 2 {
        assert(crate::disassembler::ea_bit(m, r) == 9);
        assert(crate::disassembler::ea_class_pow(9) == 512);
        assert((EA_MEMORY_ALTERABLE / 512u16) % 2 == 0);
        assert(!ea_in_mask(m, r, EA_MEMORY_ALTERABLE));
    }
    if m == 7 && r == 3 {
        assert(crate::disassembler::ea_bit(m, r) == 10);
        assert(crate::disassembler::ea_class_pow(10) == 1024);
        assert((EA_MEMORY_ALTERABLE / 1024u16) % 2 == 0);
        assert(!ea_in_mask(m, r, EA_MEMORY_ALTERABLE));
    }
    if m == 7 && r == 4 {
        assert(crate::disassembler::ea_bit(m, r) == 11);
        assert(crate::disassembler::ea_class_pow(11) == 2048);
        assert((EA_MEMORY_ALTERABLE / 2048u16) % 2 == 0);
        assert(!ea_in_mask(m, r, EA_MEMORY_ALTERABLE));
    }
}

/// An effective address within the data-alterable classes decodes to a
/// data-alterable operand.
proof fn lemma_from_ea_data_alterable(m: u8, r: u8, size: Size, w1: u16, w2: u16)
    requires
        m <= 7,
        r <= 7,
        ea_in_mask(m, r, EA_DATA_ALTERABLE),
        operand_from_ea(m, r, size, w1, w2) is Some,
    ensures
        is_data_alterable(operand_from_ea(m, r, size, w1, w2)->Some_0),
{
    if m == 1 {
        assert(crate::disassembler::ea_bit(m, r) == 1);
        assert(crate::disassembler::ea_class_pow(1) == 2);
        assert((EA_DATA_ALTERABLE / 2u16) % 2 == 0);
        assert(!ea_in_mask(m, r, EA_DATA_ALTERABLE));
    }
    if m == 7 && r == 2 {
        assert(crate::disassembler::ea_bit(m, r) == 9);
        assert(crate::disassembler::ea_class_pow(9) == 512);
        assert((EA_DATA_ALTERABLE / 512u16) % 2 == 0);
        assert(!ea_in_mask(m, r, EA_DATA_ALTERABLE));
    }
    if m == 7 && r == 3 {
        assert(crate::disassembler::ea_bit(m, r) == 10);
        assert(crate::disassembler::ea_class_pow(10) == 1024);
        assert((EA_DATA_ALTERABLE / 1024u16) % 2 == 0);
        assert(!ea_in_mask(m, r, EA_DATA_ALTERABLE));
    }
    if m == 7 && r == 4 {
        assert(crate::disassembler::ea_bit(m, r) == 11);
        assert(crate::disassembler::ea_class_pow(11) == 2048);
        assert((EA_DATA_ALTERABLE / 2048u16) % 2 == 0);
        assert(!ea_in_mask(m, r, EA_DATA_ALTERABLE));
    }
}

/// The brief extension words and byte immediates of an effective address
/// have their ignored bits clear, so that what the decoder discards was
/// zero to begin with.
pub open spec fn canonical_ea(m: u8, r: u8, size: Size, w1: u16) -> bool {
    &&& (m == 6 || (m == 7 && r == 3)) ==> w1 % 0x1000 < 0x100
    &&& (m == 7 && r == 4 && size == Size::Byte) ==> w1 < 0x100
}

/// Every effective address of the instruction is canonical, walking the
/// extension words as the decoder walks them.
pub open spec fn canonical_fields(
    fields: Seq<(u8, u8)>,
    size: Size,
    mem: MemoryVec,
    a: int,
) -> bool
    decreases fields.len(),
{
    fields.len() == 0 || {
        let m = fields[0].0;
        let r = fields[0].1;
        let cnt = ea_ext_count(m, r, size);
        let w1 = if cnt >= 1 && w_ok(mem, a) {
            w_at(mem, a)
        } else {
            0u16
        };
        canonical_ea(m, r, size, w1) && canonical_fields(fields.skip(1), size, mem, a + 2 * cnt)
    }
}

/// What decoding one effective-address field yields: the operand whose
/// fields are the ones decoded, whose extension words are exactly the words
/// read, one or two of them, starting at `a`.
proof fn lemma_decode_field(m: u8, r: u8, size: Size, mem: MemoryVec, a: int, w1: u16, w2: u16)
    requires
        m <= 7,
        r <= 7,
        w1 == (if ea_ext_count(m, r, size) >= 1 && w_ok(mem, a) {
            w_at(mem, a)
        } else {
            0u16
        }),
        w2 == (if ea_ext_count(m, r, size) >= 2 && w_ok(mem, a + 2) {
            w_at(mem, a + 2)
        } else {
            0u16
        }),
        operand_from_ea(m, r, size, w1, w2) is Some,
        canonical_ea(m, r, size, w1),
    ensures
        ({
            let o = operand_from_ea(m, r, size, w1, w2)->Some_0;
            &&& s_mode_bits(o) == m
            &&& s_register_bits(o) == r
            &&& wf_operand(o)
            &&& ext_words(o, size).len() == ea_ext_count(m, r, size)
            &&& ext_words(o, size) =~= seq![w1, w2].take(ea_ext_count(m, r, size))
        }),
{
    lemma_operand_ext_roundtrip(m, r, size, w1, w2);
}



/// The row that decoded an instruction is also the first row the assembly
/// dispatch selects for it: earlier rows differ in mnemonic or size, or
/// their selector refuses the operand shapes the decoder produced.
proof fn lemma_selection(i: int, ops: Seq<Operand>)
    requires
        0 <= i < spec_table().len(),
        ops.len() == 2,
        s_selects(spec_table()[i].selector, ops),
        i != 13 && i != 14 ==> !(ops[1] is StatusRegister),
    ensures
        first_sel_from(spec_table(), spec_table()[i].mnemonic@, spec_table()[i].size, ops, 0)
            == Some(i),
{
    let t = spec_table();
    let m = t[i].mnemonic@;
    let size = t[i].size;
    proof_mnemonic_facts();
    assert(crate::text::eq_nocase(m, m)) by {
        assert(forall|k: int|
            0 <= k < m.len() ==> crate::text::char_eq_nocase(#[trigger] m[k], m[k]));
    }
    assert(row_selects(t[i], m, size, ops));
    assert forall|j: int| 0 <= j < i implies !row_selects(t[j], m, size, ops) by {
        proof_mnemonic_facts();
    }
    lemma_first_sel_prefix(t, m, size, ops, i);
}

/// The five mnemonics of the table, revealed, with the letters that tell
/// the equal-length ones apart.
proof fn proof_mnemonic_facts()
    ensures
        "ADD"@.len() == 3,
        "ADDA"@.len() == 4,
        "ADDI"@.len() == 4,
        "MOVE"@.len() == 4,
        "MOVEA"@.len() == 5,
        !crate::text::char_eq_nocase("ADDA"@[3], "ADDI"@[3]),
        !crate::text::char_eq_nocase("ADDI"@[3], "ADDA"@[3]),
        !crate::text::char_eq_nocase("MOVE"@[0], "ADDA"@[0]),
        !crate::text::char_eq_nocase("MOVE"@[0], "ADDI"@[0]),
        !crate::text::char_eq_nocase("ADDA"@[0], "MOVE"@[0]),
        !crate::text::char_eq_nocase("ADDI"@[0], "MOVE"@[0]),
{
    reveal_strlit("ADD");
    reveal_strlit("ADDA");
    reveal_strlit("ADDI");
    reveal_strlit("MOVE");
    reveal_strlit("MOVEA");
}


/// The first extension word a field reads, zero when there is none.
pub open spec fn dec_w1(mem: MemoryVec, a: int, cnt: int) -> u16 {
    if cnt >= 1 && w_ok(mem, a) {
        w_at(mem, a)
    } else {
        0u16
    }
}

/// The second extension word a field reads, zero when there is none.
pub open spec fn dec_w2(mem: MemoryVec, a: int, cnt: int) -> u16 {
    if cnt >= 2 && w_ok(mem, a + 2) {
        w_at(mem, a + 2)
    } else {
        0u16
    }
}

/// What decoding a two-field operand list yields: two well-formed operands
/// whose address fields are the decoded ones and whose extension words are
/// exactly the words read from `a` on.
proof fn lemma_decode_two_fields(fields: Seq<(u8, u8)>, size: Size, mem: MemoryVec, a: int)
    requires
        fields.len() == 2,
        fields[0].0 <= 7,
        fields[0].1 <= 7,
        fields[1].0 <= 7,
        fields[1].1 <= 7,
        decode_ops_mem(fields, size, mem, a) is Some,
        canonical_fields(fields, size, mem, a),
    ensures
        ({
            let (ops, end) = decode_ops_mem(fields, size, mem, a)->Some_0;
            let cnt0 = ea_ext_count(fields[0].0, fields[0].1, size);
            let cnt1 = ea_ext_count(fields[1].0, fields[1].1, size);
            &&& ops.len() == 2
            &&& end == a + 2 * cnt0 + 2 * cnt1
            &&& operand_from_ea(
                fields[0].0,
                fields[0].1,
                size,
                dec_w1(mem, a, cnt0),
                dec_w2(mem, a, cnt0),
            ) == Some(ops[0])
            &&& operand_from_ea(
                fields[1].0,
                fields[1].1,
                size,
                dec_w1(mem, a + 2 * cnt0, cnt1),
                dec_w2(mem, a + 2 * cnt0, cnt1),
            ) == Some(ops[1])
            &&& s_mode_bits(ops[0]) == fields[0].0
            &&& s_register_bits(ops[0]) == fields[0].1
            &&& wf_operand(ops[0])
            &&& s_mode_bits(ops[1]) == fields[1].0
            &&& s_register_bits(ops[1]) == fields[1].1
            &&& wf_operand(ops[1])
            &&& ext_words(ops[0], size).len() == cnt0
            &&& ext_words(ops[1], size).len() == cnt1
            &&& forall|k: int|
                0 <= k < cnt0 ==> ext_words(ops[0], size)[k] == w_at(mem, a + 2 * k)
            &&& forall|k: int|
                0 <= k < cnt1 ==> ext_words(ops[1], size)[k] == w_at(mem, a + 2 * cnt0 + 2 * k)
            &&& !(ops[0] is StatusRegister)
            &&& !(ops[1] is StatusRegister)
        }),
{
    let f00 = fields[0].0;
    let f01 = fields[0].1;
    let f10 = fields[1].0;
    let f11 = fields[1].1;
    let cnt0 = ea_ext_count(f00, f01, size);
    let cnt1 = ea_ext_count(f10, f11, size);
    let w10 = dec_w1(mem, a, cnt0);
    let w20 = dec_w2(mem, a, cnt0);
    assert(fields.skip(1)[0] == fields[1]);
    assert(fields.skip(1).len() == 1);
    assert(fields.skip(1).skip(1) =~= Seq::<(u8, u8)>::empty());
    let o0 = operand_from_ea(f00, f01, size, w10, w20)->Some_0;
    let a1 = a + 2 * cnt0;
    let w11 = dec_w1(mem, a1, cnt1);
    let w21 = dec_w2(mem, a1, cnt1);
    let o1 = operand_from_ea(f10, f11, size, w11, w21)->Some_0;
    let (ops, end) = decode_ops_mem(fields, size, mem, a)->Some_0;
    let rest2 = decode_ops_mem(fields.skip(1).skip(1), size, mem, a1 + 2 * cnt1);
    assert(rest2 == Some((Seq::<Operand>::empty(), a1 + 2 * cnt1)));
    let rest = decode_ops_mem(fields.skip(1), size, mem, a1);
    assert(rest == Some((seq![o1] + Seq::<Operand>::empty(), a1 + 2 * cnt1)));
    assert(decode_ops_mem(fields, size, mem, a) == Some(
        (seq![o0] + (seq![o1] + Seq::<Operand>::empty()), a1 + 2 * cnt1),
    ));
    assert(ops =~= seq![o0, o1]);
    assert(end == a1 + 2 * cnt1);
    lemma_decode_field(f00, f01, size, mem, a, w10, w20);
    assert(canonical_fields(fields.skip(1), size, mem, a1));
    assert(canonical_ea(f10, f11, size, w11));
    lemma_decode_field(f10, f11, size, mem, a1, w11, w21);
    lemma_from_ea_class(f00, f01, size, w10, w20);
    lemma_from_ea_class(f10, f11, size, w11, w21);
    assert(seq![w10, w20].take(cnt0).len() == cnt0);
    assert forall|k: int| 0 <= k < cnt0 implies ext_words(ops[0], size)[k] == w_at(
        mem,
        a + 2 * k,
    ) by {
        assert(ext_words(ops[0], size)[k] == seq![w10, w20].take(cnt0)[k]);
    }
    assert forall|k: int| 0 <= k < cnt1 implies ext_words(ops[1], size)[k] == w_at(
        mem,
        a1 + 2 * k,
    ) by {
        assert(ext_words(ops[1], size)[k] == seq![w11, w21].take(cnt1)[k]);
    }
}

/// What decoding a one-field operand list yields.
proof fn lemma_decode_one_field(fields: Seq<(u8, u8)>, size: Size, mem: MemoryVec, a: int)
    requires
        fields.len() == 1,
        fields[0].0 <= 7,
        fields[0].1 <= 7,
        decode_ops_mem(fields, size, mem, a) is Some,
        canonical_fields(fields, size, mem, a),
    ensures
        ({
            let (ops, end) = decode_ops_mem(fields, size, mem, a)->Some_0;
            let cnt0 = ea_ext_count(fields[0].0, fields[0].1, size);
            &&& ops.len() == 1
            &&& end == a + 2 * cnt0
            &&& operand_from_ea(
                fields[0].0,
                fields[0].1,
                size,
                dec_w1(mem, a, cnt0),
                dec_w2(mem, a, cnt0),
            ) == Some(ops[0])
            &&& s_mode_bits(ops[0]) == fields[0].0
            &&& s_register_bits(ops[0]) == fields[0].1
            &&& wf_operand(ops[0])
            &&& ext_words(ops[0], size).len() == cnt0
            &&& forall|k: int|
                0 <= k < cnt0 ==> ext_words(ops[0], size)[k] == w_at(mem, a + 2 * k)
            &&& !(ops[0] is StatusRegister)
        }),
{
    let f00 = fields[0].0;
    let f01 = fields[0].1;
    let cnt0 = ea_ext_count(f00, f01, size);
    let w10 = dec_w1(mem, a, cnt0);
    let w20 = dec_w2(mem, a, cnt0);
    assert(fields.skip(1) =~= Seq::<(u8, u8)>::empty());
    let o0 = operand_from_ea(f00, f01, size, w10, w20)->Some_0;
    let (ops, end) = decode_ops_mem(fields, size, mem, a)->Some_0;
    let rest = decode_ops_mem(fields.skip(1), size, mem, a + 2 * cnt0);
    assert(rest == Some((Seq::<Operand>::empty(), a + 2 * cnt0)));
    assert(decode_ops_mem(fields, size, mem, a) == Some(
        (seq![o0] + Seq::<Operand>::empty(), a + 2 * cnt0),
    ));
    assert(ops =~= seq![o0]);
    assert(end == a + 2 * cnt0);
    lemma_decode_field(f00, f01, size, mem, a, w10, w20);
    lemma_from_ea_class(f00, f01, size, w10, w20);
    assert forall|k: int| 0 <= k < cnt0 implies ext_words(ops[0], size)[k] == w_at(
        mem,
        a + 2 * k,
    ) by {
        assert(ext_words(ops[0], size)[k] == seq![w10, w20].take(cnt0)[k]);
    }
}


/// Assembling the word list: the opcode word ahead of both operands'
/// extension words is exactly the word sequence that was read.
proof fn lemma_finish_words(
    row: OpcodeInfo,
    op: u16,
    ops: Seq<Operand>,
    mem: MemoryVec,
    pc: u32,
    end: int,
)
    requires
        ops.len() == 2,
        s_opcode_word(row.encoder, (row.matching & 0xFFFF) as u16, ops) == op,
        op == w_at(mem, pc as int),
        end == pc + 2 + 2 * ext_words(ops[0], row.size).len() + 2 * ext_words(
            ops[1],
            row.size,
        ).len(),
        forall|k: int|
            0 <= k < ext_words(ops[0], row.size).len() ==> ext_words(ops[0], row.size)[k]
                == w_at(mem, pc + 2 + 2 * k),
        forall|k: int|
            0 <= k < ext_words(ops[1], row.size).len() ==> ext_words(ops[1], row.size)[k]
                == w_at(mem, pc + 2 + 2 * ext_words(ops[0], row.size).len() + 2 * k),
    ensures
        2 * enc_words(row, ops).len() == end - pc,
        forall|k: int|
            0 <= k < enc_words(row, ops).len() ==> #[trigger] enc_words(row, ops)[k] == w_at(
                mem,
                pc + 2 * k,
            ),
{
    let ws = enc_words(row, ops);
    let e0 = ext_words(ops[0], row.size);
    let e1 = ext_words(ops[1], row.size);
    assert(ws.len() == 1 + e0.len() + e1.len());
    assert forall|k: int| 0 <= k < ws.len() implies #[trigger] ws[k] == w_at(
        mem,
        pc + 2 * k,
    ) by {
        if k == 0 {
            assert(ws[0] == s_opcode_word(row.encoder, (row.matching & 0xFFFF) as u16, ops));
        } else if k < 1 + e0.len() {
            assert(ws[k] == e0[k - 1]);
        } else {
            assert(ws[k] == e1[k - 1 - e0.len()]);
        }
    }
}

/// The numeric value of each row's matching pattern, the or of its named
/// pieces evaluated.
proof fn lemma_table_bits()
    ensures
        spec_table()[0].matching == 0xD100,
        spec_table()[1].matching == 0xD000,
        spec_table()[2].matching == 0xD140,
        spec_table()[3].matching == 0xD040,
        spec_table()[4].matching == 0xD180,
        spec_table()[5].matching == 0xD080,
        spec_table()[6].matching == 0xD0C0,
        spec_table()[7].matching == 0xD1C0,
        spec_table()[8].matching == 0x0600,
        spec_table()[9].matching == 0x0640,
        spec_table()[10].matching == 0x0680,
        spec_table()[11].matching == 0x3040,
        spec_table()[12].matching == 0x2040,
        spec_table()[13].matching == 0x46C0,
        spec_table()[14].matching == 0x44C0,
        spec_table()[15].matching == 0x1000,
        spec_table()[16].matching == 0x3000,
        spec_table()[17].matching == 0x2000,
        ((MASK_OUT_X_EA & 0xFFFF) as u16) == 0xF1C0u16,
        ((MASK_OUT_EA & 0xFFFF) as u16) == 0xFFC0u16,
        ((MASK_OUT_EA_EA & 0xFFFF) as u16) == 0xF000u16,
{
    assert(((0xF1C0u32 & 0xFFFF) as u16) == 0xF1C0u16) by (bit_vector);
    assert(((0xFFC0u32 & 0xFFFF) as u16) == 0xFFC0u16) by (bit_vector);
    assert(((0xF000u32 & 0xFFFF) as u16) == 0xF000u16) by (bit_vector);
    assert(0xD000u32 | 0x0000u32 | 0x0100u32 == 0xD100u32) by (bit_vector);
    assert(0xD000u32 | 0x0000u32 | 0x0000u32 == 0xD000u32) by (bit_vector);
    assert(0xD000u32 | 0x0040u32 | 0x0100u32 == 0xD140u32) by (bit_vector);
    assert(0xD000u32 | 0x0040u32 | 0x0000u32 == 0xD040u32) by (bit_vector);
    assert(0xD000u32 | 0x0080u32 | 0x0100u32 == 0xD180u32) by (bit_vector);
    assert(0xD000u32 | 0x0080u32 | 0x0000u32 == 0xD080u32) by (bit_vector);
    assert(0xD000u32 | 0x00C0u32 == 0xD0C0u32) by (bit_vector);
    assert(0xD000u32 | 0x01C0u32 == 0xD1C0u32) by (bit_vector);
    assert(0x0600u32 | 0x0000u32 == 0x0600u32) by (bit_vector);
    assert(0x0600u32 | 0x0040u32 == 0x0640u32) by (bit_vector);
    assert(0x0600u32 | 0x0080u32 == 0x0680u32) by (bit_vector);
    assert(0x0000u32 | 0x3000u32 | 0x0040u32 == 0x3040u32) by (bit_vector);
    assert(0x0000u32 | 0x2000u32 | 0x0040u32 == 0x2040u32) by (bit_vector);
    assert(0x4000u32 | 0x06C0u32 == 0x46C0u32) by (bit_vector);
    assert(0x4000u32 | 0x04C0u32 == 0x44C0u32) by (bit_vector);
    assert(0x0000u32 | 0x1000u32 == 0x1000u32) by (bit_vector);
    assert(0x0000u32 | 0x3000u32 == 0x3000u32) by (bit_vector);
    assert(0x0000u32 | 0x2000u32 == 0x2000u32) by (bit_vector);
}

/// The round-trip law of the codec: for any opcode word the disassembler
/// accepts whose extension words are canonical — the ignored bits of brief
/// extension words clear and the high byte of a byte immediate clear — the
/// decoded instruction is selected by the assembly dispatch at the very row
/// that decoded it, and the words that row then writes are exactly the
/// opcode word and the extension words that were read.
pub proof fn lemma_disassembly_reencodes(mem: MemoryVec, pc: u32)
    requires
        sdisasm(mem, pc) is Some,
        canonical_fields(
            decode_fields(
                spec_table()[sdisasm(mem, pc)->Some_0.0].decoder,
                w_at(mem, pc as int),
            ),
            spec_table()[sdisasm(mem, pc)->Some_0.0].size,
            mem,
            pc + 2,
        ),
    ensures
        ({
            let (i, ops, end) = sdisasm(mem, pc)->Some_0;
            let row = spec_table()[i];
            let ws = enc_words(row, ops);
            &&& first_sel_from(spec_table(), row.mnemonic@, row.size, ops, 0) == Some(i)
            &&& 2 * ws.len() == end - pc
            &&& forall|k: int| 0 <= k < ws.len() ==> #[trigger] ws[k] == w_at(mem, pc + 2 * k)
        }),
{
    let t = spec_table();
    let op = w_at(mem, pc as int);
    let i = sdisasm(mem, pc)->Some_0.0;
    let ops = sdisasm(mem, pc)->Some_0.1;
    let end = sdisasm(mem, pc)->Some_0.2;
    assert(first_match_from(t, op, 0) == Some(i));
    lemma_first_match_found(t, op, 0);
    lemma_table_bits();
    let row = t[i];
    assert(row_accepts(row, op));
    assert(decoded_operands(row, op, mem, pc + 2) == Some((ops, end)));
    let fields = decode_fields(row.decoder, op);
    let a0 = pc + 2;
    let sm = src_mode(op);
    let sr = src_reg(op);
    let dm = dst_mode(op);
    let dr = dst_reg(op);
    assert(sm <= 7 && sr <= 7 && dm <= 7 && dr <= 7);
    let tm = (row.matching & 0xFFFF) as u16;
    if i == 0 || i == 2 || i == 4 {
        assert(row.mask == MASK_OUT_X_EA && row.matching <= 0xFFFF && row.ea_mask == EA_MEMORY_ALTERABLE && row.validator == Validator::Ea && row.decoder == Decoder::DxEa && row.encoder == Encoder::DxEa && row.selector == Selector::DxEa) by {
            if i == 0 {
            } else if i == 2 {
            } else if i == 4 {
            } else {
            }
        }
        assert(fields =~= seq![(0u8, dr), (sm, sr)]);
        lemma_decode_two_fields(fields, row.size, mem, a0 as int);
        assert(decode_ops_mem(fields, row.size, mem, a0 as int) == Some((ops, end)));
        let cnt0 = ea_ext_count(fields[0].0, fields[0].1, row.size);
        let cnt1 = ea_ext_count(fields[1].0, fields[1].1, row.size);
        lemma_mask16(op, row.mask, row.matching);
        assert(ops[0] == Operand::DataRegisterDirect(dr));
        assert(ea_in_mask(sm, sr, EA_MEMORY_ALTERABLE));
        lemma_from_ea_mem_alterable(
            sm,
            sr,
            row.size,
            dec_w1(mem, a0 as int, cnt1),
            dec_w2(mem, a0 as int, cnt1),
        );
        assert(is_mem_alterable(ops[1]));
        assert(s_selects(row.selector, ops));
        lemma_rebuild_x_ea(op, tm);
        assert((s_register_bits(ops[0]) as u16) == (((op / 0x200) % 8) as u16));
        assert(ea6(ops[1]) == ((((op / 8) % 8) * 8 + op % 8) as u16));
        lemma_selection(i, ops);
        assert(s_opcode_word(row.encoder, tm, ops) == op);
        lemma_finish_words(row, op, ops, mem, pc, end);
    }
    if i == 1 || i == 3 || i == 5 {
        assert(row.mask == MASK_OUT_X_EA && row.matching <= 0xFFFF && row.validator == Validator::Ea && row.decoder == Decoder::EaDx && row.encoder == Encoder::EaDx && row.selector == Selector::EaDx) by {
            if i == 1 {
            } else if i == 3 {
            } else if i == 5 {
            } else {
            }
        }
        assert(fields =~= seq![(sm, sr), (0u8, dr)]);
        lemma_decode_two_fields(fields, row.size, mem, a0 as int);
        assert(decode_ops_mem(fields, row.size, mem, a0 as int) == Some((ops, end)));
        let cnt0 = ea_ext_count(fields[0].0, fields[0].1, row.size);
        let cnt1 = ea_ext_count(fields[1].0, fields[1].1, row.size);
        lemma_mask16(op, row.mask, row.matching);
        assert(ops[1] == Operand::DataRegisterDirect(dr));
        assert(s_selects(row.selector, ops));
        lemma_rebuild_x_ea(op, tm);
        assert((s_register_bits(ops[1]) as u16) == (((op / 0x200) % 8) as u16));
        assert(ea6(ops[0]) == ((((op / 8) % 8) * 8 + op % 8) as u16));
        lemma_selection(i, ops);
        assert(s_opcode_word(row.encoder, tm, ops) == op);
        lemma_finish_words(row, op, ops, mem, pc, end);
    }
    if i == 6 || i == 7 {
        assert(row.mask == MASK_OUT_X_EA && row.matching <= 0xFFFF && row.validator == Validator::Ea && row.decoder == Decoder::EaAx && row.encoder == Encoder::EaAx && row.selector == Selector::EaAx) by {
            if i == 6 {
            } else if i == 7 {
            } else {
            }
        }
        assert(fields =~= seq![(sm, sr), (1u8, dr)]);
        lemma_decode_two_fields(fields, row.size, mem, a0 as int);
        assert(decode_ops_mem(fields, row.size, mem, a0 as int) == Some((ops, end)));
        let cnt0 = ea_ext_count(fields[0].0, fields[0].1, row.size);
        let cnt1 = ea_ext_count(fields[1].0, fields[1].1, row.size);
        lemma_mask16(op, row.mask, row.matching);
        assert(ops[1] == Operand::AddressRegisterDirect(dr));
        assert(s_selects(row.selector, ops));
        lemma_rebuild_x_ea(op, tm);
        assert((s_register_bits(ops[1]) as u16) == (((op / 0x200) % 8) as u16));
        assert(ea6(ops[0]) == ((((op / 8) % 8) * 8 + op % 8) as u16));
        lemma_selection(i, ops);
        assert(s_opcode_word(row.encoder, tm, ops) == op);
        lemma_finish_words(row, op, ops, mem, pc, end);
    }
    if i == 8 || i == 9 || i == 10 {
        assert(row.mask == MASK_OUT_EA && row.matching <= 0xFFFF && row.ea_mask == EA_DATA_ALTERABLE && row.validator == Validator::Ea && row.decoder == Decoder::ImmEa && row.encoder == Encoder::ImmEa && row.selector == Selector::ImmEa) by {
            if i == 8 {
            } else if i == 9 {
            } else if i == 10 {
            } else {
            }
        }
        assert(fields =~= seq![(7u8, 4u8), (sm, sr)]);
        lemma_decode_two_fields(fields, row.size, mem, a0 as int);
        assert(decode_ops_mem(fields, row.size, mem, a0 as int) == Some((ops, end)));
        let cnt0 = ea_ext_count(fields[0].0, fields[0].1, row.size);
        let cnt1 = ea_ext_count(fields[1].0, fields[1].1, row.size);
        lemma_mask16(op, row.mask, row.matching);
        assert(ops[0] is Immediate);
        assert(ea_in_mask(sm, sr, EA_DATA_ALTERABLE));
        lemma_from_ea_data_alterable(
            sm,
            sr,
            row.size,
            dec_w1(mem, a0 + 2 * cnt0, cnt1),
            dec_w2(mem, a0 + 2 * cnt0, cnt1),
        );
        assert(is_data_alterable(ops[1]));
        assert(s_selects(row.selector, ops));
        lemma_rebuild_ea(op, tm);
        assert(ea6(ops[1]) == ((((op / 8) % 8) * 8 + op % 8) as u16));
        lemma_selection(i, ops);
        assert(s_opcode_word(row.encoder, tm, ops) == op);
        lemma_finish_words(row, op, ops, mem, pc, end);
    }
    if i == 11 || i == 12 {
        assert(row.mask == MASK_OUT_EA && row.matching <= 0xFFFF && row.validator == Validator::Ea && row.decoder == Decoder::EaEa && row.encoder == Encoder::EaEa && row.selector == Selector::EaEa) by {
            if i == 11 {
            } else if i == 12 {
            } else {
            }
        }
        assert(fields =~= seq![(sm, sr), (dm, dr)]);
        lemma_decode_two_fields(fields, row.size, mem, a0 as int);
        assert(decode_ops_mem(fields, row.size, mem, a0 as int) == Some((ops, end)));
        let cnt0 = ea_ext_count(fields[0].0, fields[0].1, row.size);
        let cnt1 = ea_ext_count(fields[1].0, fields[1].1, row.size);
        lemma_mask16(op, row.mask, row.matching);
        assert(s_selects(row.selector, ops));
        lemma_rebuild_ea_keep_dst(op, tm);
        assert((s_register_bits(ops[1]) as u16) == (((op / 0x200) % 8) as u16));
        assert((s_mode_bits(ops[1]) as u16) == (((op / 0x40) % 8) as u16));
        assert(ea6(ops[0]) == ((((op / 8) % 8) * 8 + op % 8) as u16));
        lemma_selection(i, ops);
        assert(s_opcode_word(row.encoder, tm, ops) == op);
        lemma_finish_words(row, op, ops, mem, pc, end);
    }
    if i == 15 || i == 16 || i == 17 {
        assert(row.mask == MASK_OUT_EA_EA && row.matching <= 0xFFFF && row.validator == Validator::EaEa && row.decoder == Decoder::EaEa && row.encoder == Encoder::EaEa && row.selector == Selector::EaEa) by {
            if i == 15 {
            } else if i == 16 {
            } else if i == 17 {
            } else {
            }
        }
        assert(fields =~= seq![(sm, sr), (dm, dr)]);
        lemma_decode_two_fields(fields, row.size, mem, a0 as int);
        assert(decode_ops_mem(fields, row.size, mem, a0 as int) == Some((ops, end)));
        let cnt0 = ea_ext_count(fields[0].0, fields[0].1, row.size);
        let cnt1 = ea_ext_count(fields[1].0, fields[1].1, row.size);
        lemma_mask16(op, row.mask, row.matching);
        assert(s_selects(row.selector, ops));
        lemma_rebuild_ea_ea(op, tm);
        assert((s_register_bits(ops[1]) as u16) == (((op / 0x200) % 8) as u16));
        assert((s_mode_bits(ops[1]) as u16) == (((op / 0x40) % 8) as u16));
        assert(ea6(ops[0]) == ((((op / 8) % 8) * 8 + op % 8) as u16));
        lemma_selection(i, ops);
        assert(s_opcode_word(row.encoder, tm, ops) == op);
        lemma_finish_words(row, op, ops, mem, pc, end);
    }
    if i == 13 {
        assert(fields =~= seq![(sm, sr)]);
        lemma_decode_one_field(fields, row.size, mem, a0 as int);
        let dec = decode_ops_mem(fields, row.size, mem, a0 as int)->Some_0;
        assert(ops =~= dec.0 + seq![Operand::StatusRegister(Size::Word)]);
        assert(end == dec.1);
        let cnt0 = ea_ext_count(fields[0].0, fields[0].1, row.size);
        assert(ops.len() == 2);
        assert(ops[0] == dec.0[0]);
        assert(ops[1] == Operand::StatusRegister(Size::Word));
        assert(ext_words(ops[1], row.size) =~= Seq::<u16>::empty());
        assert(s_selects(row.selector, ops));
        lemma_selection(i, ops);
        lemma_mask16(op, row.mask, row.matching);
        lemma_rebuild_ea(op, tm);
        assert(ea6(ops[0]) == ((((op / 8) % 8) * 8 + op % 8) as u16));
        assert(s_opcode_word(row.encoder, tm, ops) == op);
        lemma_finish_words(row, op, ops, mem, pc, end);
    }
    if i == 14 {
        assert(fields =~= seq![(sm, sr)]);
        lemma_decode_one_field(fields, row.size, mem, a0 as int);
        let dec = decode_ops_mem(fields, row.size, mem, a0 as int)->Some_0;
        assert(ops =~= dec.0 + seq![Operand::StatusRegister(Size::Byte)]);
        assert(end == dec.1);
        let cnt0 = ea_ext_count(fields[0].0, fields[0].1, row.size);
        assert(ops.len() == 2);
        assert(ops[0] == dec.0[0]);
        assert(ops[1] == Operand::StatusRegister(Size::Byte));
        assert(ext_words(ops[1], row.size) =~= Seq::<u16>::empty());
        assert(s_selects(row.selector, ops));
        lemma_selection(i, ops);
        lemma_mask16(op, row.mask, row.matching);
        lemma_rebuild_ea(op, tm);
        assert(ea6(ops[0]) == ((((op / 8) % 8) * 8 + op % 8) as u16));
        assert(s_opcode_word(row.encoder, tm, ops) == op);
        lemma_finish_words(row, op, ops, mem, pc, end);
    }
}

} // verus!
