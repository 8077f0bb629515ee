use m68kasm::Size;
use m68kasm::Exception;
use m68kasm::memory::MemoryVec;
use m68kasm::operand::Operand;
use m68kasm::assembler::{adjust_size, encode_instruction, Assembler};
use m68kasm::expr::Expr;
use m68kasm::disassembler::{disassemble, disassemble_first};

#[test]
fn roundtrips_from_opcode() {
    let opcode: u16 = 0xd511;
    let mut mem = MemoryVec::new16(0, vec![opcode]);
    let text = {
        let inst = disassemble_first(&mem);
        format!(" {}", inst.to_text())
    };
    let pc = 0;
    let a = Assembler::new();
    let inst = a.parse_assembler(text.as_str()).unwrap();
    let new_pc = encode_instruction(text.as_str(), &inst, pc, &mut mem);
    assert_eq!(2, new_pc);
    assert_eq!(opcode, mem.read_word(pc));
}

#[test]
fn roundtrips_from_asm() {
    let mut mem = MemoryVec::new();
    let pc = 0;
    let text = " ADD.B\tD2,(A1)";
    let a = Assembler::new();
    let inst = a.parse_assembler(text).unwrap();
    encode_instruction(text, &inst, pc, &mut mem);
    let inst = disassemble_first(&mem);

    assert_eq!(text, format!(" {}", inst.to_text()));
}

#[test]
fn roundtrips() {
    let a = Assembler::new();
    for opcode in 0x0000..0xffffu16 {
        let pc = 0;
        let extension_word_mask = 0b1111_1000_1111_1111;
        // bits 8-10 should always be zero in the ea extension word
        // as we don't know which word will be seen as the ea extension word
        // (as opposed to immediate operand values) just make sure these aren't set.
        let dasm_mem = MemoryVec::new16(
            0,
            vec![opcode, 0x001f, 0x00a4, 0x1234 & extension_word_mask, 0x5678
                & extension_word_mask],
        );
        match disassemble(pc, &dasm_mem) {
            Err(Exception::IllegalInstruction(_, _)) => (),
            Ok(inst_text) => {
                let text = format!("\t{}", inst_text.to_text());
                let unsized_inst = a.parse_assembler(text.as_str()).unwrap();
                let inst = adjust_size(&unsized_inst);
                let mut out_mem = MemoryVec::new();
                let new_pc = encode_instruction(text.as_str(), &inst, pc, &mut out_mem);
                assert_eq!(inst.length() * 2, new_pc);
                let new_opcode = out_mem.read_word(pc);
                if opcode != new_opcode {
                    panic!("{:04x} | {:04x}: {}", opcode, new_opcode, text);
                } else {
                    println!(
                        "{:04x}: disassembled as {}, parsed as {}, assembled to {:04x}",
                        opcode,
                        text,
                        inst.to_text(),
                        new_opcode
                    );
                }
                if inst.length() > 1 {
                    let old_ex1 = dasm_mem.read_word(pc + 2);
                    let new_ex1 = out_mem.read_word(pc + 2);
                    if old_ex1 != new_ex1 {
                        println!("mismatching extension word: ew1: {:08x} {:08x}", old_ex1, new_ex1)
                    };
                    assert_eq!(old_ex1, new_ex1);
                };
                if inst.length() > 2 {
                    let old_ex2 = dasm_mem.read_word(pc + 4);
                    let new_ex2 = out_mem.read_word(pc + 4);
                    if old_ex2 != new_ex2 {
                        println!("mismatching extension word: ew2: {:08x} {:08x}", old_ex2, new_ex2)
                    };
                    assert_eq!(old_ex2, new_ex2);
                };
                if inst.length() > 3 {
                    let old_ex3 = dasm_mem.read_word(pc + 6);
                    let new_ex3 = out_mem.read_word(pc + 6);
                    if old_ex3 != new_ex3 {
                        println!("mismatching extension word: ew3: {:08x} {:08x}", old_ex3, new_ex3)
                    };
                    assert_eq!(old_ex3, new_ex3);
                };
            }
        }
    }
}

#[test]
fn add_byte_to_indirect_assembles_to_d511() {
    // parse " ADD.B\tD2,(A1)", assemble at PC 0: the word at 0 is 0xD511
    let a = Assembler::new();
    let inst = a.parse_assembler(" ADD.B\tD2,(A1)").unwrap();
    let mut mem = MemoryVec::new();
    let new_pc = encode_instruction(" ADD.B\tD2,(A1)", &inst, 0, &mut mem);
    assert_eq!(2, new_pc);
    assert_eq!(0xD511, mem.read_word(0));
}

#[test]
fn d511_disassembles_parses_and_reencodes() {
    // disassemble 0xD511, parse the text, and the re-encoding is 0xD511
    let mem = MemoryVec::new16(0, vec![0xD511]);
    let inst = disassemble(0, &mem).unwrap();
    let text = format!(" {}", inst.to_text());
    assert_eq!(" ADD.B\tD2,(A1)", text);
    let a = Assembler::new();
    let parsed = a.parse_assembler(text.as_str()).unwrap();
    let mut out = MemoryVec::new();
    encode_instruction(text.as_str(), &parsed, 0, &mut out);
    assert_eq!(0xD511, out.read_word(0));
}

#[test]
fn unknown_opcode_is_illegal_instruction() {
    let mem = MemoryVec::new16(0, vec![0xFFFF, 0, 0, 0, 0]);
    match disassemble(0, &mem) {
        Err(Exception::IllegalInstruction(ir, at)) => {
            assert_eq!(0xFFFF, ir);
            assert_eq!(0, at);
        }
        Ok(inst) => panic!("0xFFFF decoded as {}", inst.to_text()),
    }
}

#[test]
fn truncated_image_is_illegal_instruction() {
    // an ADDI needs an immediate word that this image does not hold
    let mem = MemoryVec::new16(0, vec![0x0600]);
    match disassemble(0, &mem) {
        Err(Exception::IllegalInstruction(_, at)) => assert_eq!(0, at),
        Ok(inst) => panic!("truncated ADDI decoded as {}", inst.to_text()),
    }
}

#[test]
fn adjust_size_defaults_to_word_and_sizes_immediates() {
    let a = Assembler::new();
    let bare = a.parse_assembler(" ADDI #5,D3").unwrap();
    assert_eq!(Size::Unsized, bare.size);
    let adjusted = adjust_size(&bare);
    assert_eq!(Size::Word, adjusted.size);
    assert_eq!(Operand::Immediate(Size::Word, 5), adjusted.operands[0]);
    // an explicit size is kept
    let long = a.parse_assembler(" ADDI.L #5,D3").unwrap();
    let adjusted_long = adjust_size(&long);
    assert_eq!(Size::Long, adjusted_long.size);
    assert_eq!(Operand::Immediate(Size::Long, 5), adjusted_long.operands[0]);
}

#[test]
fn instruction_length_counts_extension_words() {
    let a = Assembler::new();
    let inst = adjust_size(&a.parse_assembler(" ADDI.L #5,1234.L").unwrap());
    // opcode word + two immediate words + two absolute-long words
    assert_eq!(5, inst.length());
    let short = adjust_size(&a.parse_assembler(" ADD.B\tD2,(A1)").unwrap());
    assert_eq!(1, short.length());
}

#[test]
fn operand_text_round_trips_every_mode() {
    let samples: Vec<Operand> = vec![
        Operand::DataRegisterDirect(3),
        Operand::AddressRegisterDirect(5),
        Operand::AddressRegisterIndirect(1),
        Operand::AddressRegisterIndirectWithPostincrement(2),
        Operand::AddressRegisterIndirectWithPredecrement(6),
        Operand::AddressRegisterIndirectWithDisplacement(4, -42),
        Operand::AddressRegisterIndirectWithIndex(0, 9, 16),
        Operand::PcWithDisplacement(-10),
        Operand::PcWithIndex(3, 7),
        Operand::AbsoluteWord(65535),
        Operand::AbsoluteLong(4294967295),
        Operand::Immediate(Size::Unsized, 2031780),
        Operand::StatusRegister(Size::Word),
        Operand::StatusRegister(Size::Byte),
    ];
    for op in samples.iter() {
        let text = op.to_text();
        let (parsed, consumed) =
            m68kasm::assembler::parser::parse_operand(text.as_str(), 0).unwrap();
        assert_eq!(consumed, text.chars().count(), "leftover text in {:?}", text);
        assert_eq!(*op, parsed.to_operand().unwrap(), "for text {:?}", text);
    }
}

#[test]
fn case_insensitive_mnemonics_assemble() {
    let a = Assembler::new();
    let inst = adjust_size(&a.parse_assembler(" add.b d2,(a1)").unwrap());
    let mut mem = MemoryVec::new();
    encode_instruction(" add.b d2,(a1)", &inst, 0, &mut mem);
    assert_eq!(0xD511, mem.read_word(0));
}

#[test]
fn memory_words_are_big_endian() {
    let mem = MemoryVec::new16(4, vec![0x1234, 0xABCD]);
    assert_eq!(4, mem.offset());
    assert_eq!(0x12, mem.read_byte(4));
    assert_eq!(0x34, mem.read_byte(5));
    assert_eq!(0xABCD, mem.read_word(6));
    let mut grown = MemoryVec::new();
    grown.write_word(6, 0xBEEF);
    assert_eq!(8, grown.len());
    assert_eq!(0, grown.read_byte(0));
    assert_eq!(0xBEEF, grown.read_word(6));
}

#[test]
fn eval_division_edges() {
    // division by zero stays undefined instead of faulting
    let div0 = Expr::Div(Box::new(Expr::Num(1)), Box::new(Expr::Num(0)));
    assert_eq!(None, div0.eval());
    let mod0 = Expr::Mod(Box::new(Expr::Num(1)), Box::new(Expr::Num(0)));
    assert_eq!(None, mod0.eval());
    // the one overflowing division wraps
    let wrap = Expr::Div(Box::new(Expr::Num(i32::MIN)), Box::new(Expr::Num(-1)));
    assert_eq!(Some(i32::MIN), wrap.eval());
    let wrap_mod = Expr::Mod(Box::new(Expr::Num(i32::MIN)), Box::new(Expr::Num(-1)));
    assert_eq!(Some(0), wrap_mod.eval());
    // shift amounts are taken modulo 32, right shift is arithmetic
    let shl = Expr::Shl(Box::new(Expr::Num(1)), Box::new(Expr::Num(33)));
    assert_eq!(Some(2), shl.eval());
    let shr = Expr::Shr(Box::new(Expr::Num(-8)), Box::new(Expr::Num(1)));
    assert_eq!(Some(-4), shr.eval());
    // wrapping arithmetic
    let big = Expr::Add(Box::new(Expr::Num(i32::MAX)), Box::new(Expr::Num(1)));
    assert_eq!(Some(i32::MIN), big.eval());
}
