use m68kasm::assembler::{AsmError, Assembler};

fn lines_of(src: &[&str]) -> Vec<String> {
    src.iter().map(|s| s.to_string()).collect()
}

#[test]
fn dc_bytes_emits_values_and_string_content() {
    // dc.b $A,$B,$C,'STUFF' emits the three values and then the string's
    // characters, quotes excluded
    let a = Assembler::new();
    let (mem, _) = a.assemble(&lines_of(&[" dc.b $A,$B,$C,'STUFF'"])).unwrap();
    let expected: Vec<u8> = vec![0x0A, 0x0B, 0x0C, b'S', b'T', b'U', b'F', b'F'];
    assert_eq!(expected.len(), mem.len());
    for (i, b) in expected.iter().enumerate() {
        assert_eq!(*b, mem.read_byte(i as u32), "byte {}", i);
    }
}

#[test]
fn dcb_advances_and_fills() {
    // dcb.w n,fill advances by n words and writes n copies of the fill
    let a = Assembler::new();
    let (mem, _) = a.assemble(&lines_of(&[" dcb.w 3,$ABCD", " dc.b 1"])).unwrap();
    assert_eq!(0xABCD, mem.read_word(0));
    assert_eq!(0xABCD, mem.read_word(2));
    assert_eq!(0xABCD, mem.read_word(4));
    // the next statement lands right after the block
    assert_eq!(1, mem.read_byte(6));
    assert_eq!(7, mem.len());
}

#[test]
fn ds_is_a_zero_filled_block() {
    let a = Assembler::new();
    let (mem, _) = a.assemble(&lines_of(&[" ds.l 2", " dc.b 9"])).unwrap();
    for i in 0..8 {
        assert_eq!(0, mem.read_byte(i));
    }
    assert_eq!(9, mem.read_byte(8));
}

#[test]
fn labels_land_where_pass_two_writes() {
    // the label's pass-one location is the address its instruction is
    // emitted at, and a reference to it resolves to that address
    let a = Assembler::new();
    let (mem, _) = a
        .assemble(&lines_of(&[
            " ADD.W D2,(A1)",
            "lab: ADD.W D3,(A2)",
            " ADDA.W lab.W,A0",
        ]))
        .unwrap();
    assert_eq!(0xD551, mem.read_word(0));
    assert_eq!(0xD752, mem.read_word(2));
    // ADDA.W abs.W,A0 and the absolute word naming `lab`
    assert_eq!(0xD0F8, mem.read_word(4));
    assert_eq!(2, mem.read_word(6));
}

#[test]
fn equ_declarations_feed_operands() {
    let a = Assembler::new();
    let (mem, _) = a
        .assemble(&lines_of(&["seven equ 3+4", " ADDI.B #seven,D0"]))
        .unwrap();
    assert_eq!(0x0600, mem.read_word(0));
    assert_eq!(0x0007, mem.read_word(2));
}

#[test]
fn org_moves_the_location_counter() {
    let a = Assembler::new();
    let (mem, _) = a
        .assemble(&lines_of(&[" org $20", "lab: ADD.W D2,(A1)", " ADDA.W lab.W,A0"]))
        .unwrap();
    assert_eq!(0xD551, mem.read_word(0x20));
    assert_eq!(0x20, mem.read_word(0x24));
}

#[test]
fn even_aligns_the_counter() {
    let a = Assembler::new();
    let (mem, _) = a
        .assemble(&lines_of(&[" dc.b 1", " even", "lab: dc.b 2", " ADDA.W lab.W,A0"]))
        .unwrap();
    assert_eq!(1, mem.read_byte(0));
    assert_eq!(2, mem.read_byte(2));
    // the label after `even` sits at address 2
    assert_eq!(2, mem.read_word(5));
}

#[test]
fn end_yields_the_entry_point() {
    let a = Assembler::new();
    let (_, entry) = a
        .assemble(&lines_of(&[" ADD.W D2,(A1)", "start: ADD.W D2,(A1)", " end start"]))
        .unwrap();
    assert_eq!(Some(2), entry);
}

#[test]
fn end_stops_the_assembly() {
    let a = Assembler::new();
    let (mem, entry) = a.assemble(&lines_of(&[" end", " dc.b 1,2,3"])).unwrap();
    assert_eq!(Some(0), entry);
    assert_eq!(0, mem.len());
}

#[test]
fn missing_symbol_is_reported_by_name() {
    let a = Assembler::new();
    match a.assemble(&lines_of(&[" ADDA.W nowhere.W,A0"])) {
        Err(AsmError::MissingSymbol(name)) => assert_eq!("nowhere", name),
        other => panic!("unexpected {:?}", other),
    }
}

#[test]
fn unknown_instruction_form_is_reported() {
    let a = Assembler::new();
    match a.assemble(&lines_of(&[" WARP D0,D1"])) {
        Err(AsmError::UnknownInstructionForm(m)) => assert_eq!("WARP", m),
        other => panic!("unexpected {:?}", other),
    }
}

#[test]
fn parse_failures_name_the_line() {
    let a = Assembler::new();
    match a.assemble(&lines_of(&[" ADD.W D2,(A1)", " ADD !!"])) {
        Err(AsmError::Parse(line, _)) => assert_eq!(1, line),
        other => panic!("unexpected {:?}", other),
    }
}

#[test]
fn forward_references_resolve_in_pass_two() {
    let a = Assembler::new();
    let (mem, _) = a
        .assemble(&lines_of(&[" ADDA.W later.W,A0", "later: ADD.W D2,(A1)"]))
        .unwrap();
    assert_eq!(4, mem.read_word(2));
    assert_eq!(0xD551, mem.read_word(4));
}

#[test]
fn parse_assembler_rejects_what_is_not_an_instruction() {
    let a = Assembler::new();
    assert!(a.parse_assembler(" org $2000").is_err());
    assert!(a.parse_assembler("no instruction here !").is_err());
    // a symbolic operand cannot become a concrete instance
    assert!(a.parse_assembler(" ADD.W D0,someplace").is_err());
}
