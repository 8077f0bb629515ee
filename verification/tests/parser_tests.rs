use m68kasm::Size;
use m68kasm::OpcodeInstance;
use m68kasm::operand::Operand;
use m68kasm::expr::Expr;
use m68kasm::assembler::parser::{
    parse_expression, parse_operand, parse_operands, parse_statement, Body, Directive, Statement,
};

fn chars_len(s: &str) -> usize {
    s.chars().count()
}

fn process_operand(input: &str, expected: &Operand) {
    let r = parse_operand(input, 0);
    match r {
        Some((opx, pos)) => {
            assert_eq!(pos, chars_len(input), "operand did not consume all of {:?}", input);
            let concrete = opx.to_operand().expect("operand should be numeric");
            assert_eq!(*expected, concrete, "for input {:?}", input);
        }
        None => panic!("{} => no parse", input),
    }
}

#[test]
fn test_drd_operand() {
    process_operand("D0", &Operand::DataRegisterDirect(0));
    process_operand("D7", &Operand::DataRegisterDirect(7));
}

#[test]
fn test_ard_operand() {
    process_operand("A0", &Operand::AddressRegisterDirect(0));
    process_operand("A7", &Operand::AddressRegisterDirect(7));
}

#[test]
fn test_ari_operand() {
    process_operand("(A0)", &Operand::AddressRegisterIndirect(0));
    process_operand("(A7)", &Operand::AddressRegisterIndirect(7));
}

#[test]
fn test_api_operand() {
    process_operand("(A0)+", &Operand::AddressRegisterIndirectWithPostincrement(0));
    process_operand("(A7)+", &Operand::AddressRegisterIndirectWithPostincrement(7));
}

#[test]
fn test_apd_operand() {
    process_operand("-(A0)", &Operand::AddressRegisterIndirectWithPredecrement(0));
    process_operand("-(A7)", &Operand::AddressRegisterIndirectWithPredecrement(7));
}

#[test]
fn test_adi_operand() {
    process_operand("($10,A0)", &Operand::AddressRegisterIndirectWithDisplacement(0, 16));
    process_operand("%10(A7)", &Operand::AddressRegisterIndirectWithDisplacement(7, 2));
    process_operand("(%10,A7)", &Operand::AddressRegisterIndirectWithDisplacement(7, 2));
}

#[test]
fn test_aix_operand() {
    process_operand("( 10,A0,D0)", &Operand::AddressRegisterIndirectWithIndex(0, 0, 10));
    process_operand("(A0,A1)", &Operand::AddressRegisterIndirectWithIndex(0, 9, 0));
    process_operand("($10,A0,A1)", &Operand::AddressRegisterIndirectWithIndex(0, 9, 16));
    process_operand("$10(A0,A1)", &Operand::AddressRegisterIndirectWithIndex(0, 9, 16));
    process_operand("(%10,A7,D7)", &Operand::AddressRegisterIndirectWithIndex(7, 7, 2));
    process_operand("(@10,A7,A6)", &Operand::AddressRegisterIndirectWithIndex(7, 14, 8));
}

#[test]
fn test_abs_operand() {
    process_operand("100", &Operand::AbsoluteWord(100));
    process_operand("$100.B", &Operand::AbsoluteWord(256));
    process_operand("@100.W", &Operand::AbsoluteWord(64));
    process_operand("%100.L", &Operand::AbsoluteLong(4));
    process_operand("-100", &Operand::AbsoluteWord(-100 as i16 as u16));
    process_operand("-$100.B", &Operand::AbsoluteWord(-256 as i16 as u16));
    process_operand("-@100.W", &Operand::AbsoluteWord(-64 as i16 as u16));
    process_operand("-%100.L", &Operand::AbsoluteLong(-4 as i32 as u32));
}

#[test]
fn test_pcd_operand() {
    process_operand("(-10,PC)", &Operand::PcWithDisplacement(-10));
    process_operand("-10(PC)", &Operand::PcWithDisplacement(-10));
    process_operand("(PC)", &Operand::PcWithDisplacement(0));
}

#[test]
fn test_pci_operand() {
    process_operand("(10,PC,D0)", &Operand::PcWithIndex(0, 10));
    process_operand("10(PC,D0)", &Operand::PcWithIndex(0, 10));
    process_operand("(PC,D0)", &Operand::PcWithIndex(0, 0));
    process_operand("(10,PC,A0)", &Operand::PcWithIndex(8, 10));
}

#[test]
fn test_imm_operand() {
    process_operand("#%111", &Operand::Immediate(Size::Unsized, 7));
    process_operand("#%111.B", &Operand::Immediate(Size::Byte, 7));
    process_operand("#%111.W", &Operand::Immediate(Size::Word, 7));
    process_operand("#%111.l", &Operand::Immediate(Size::Long, 7));
}

fn process_operands(input: &str, expected: &Vec<Operand>) {
    match parse_operands(input, 0) {
        Some((opxs, pos)) => {
            assert_eq!(pos, chars_len(input), "operands did not consume all of {:?}", input);
            let concrete: Vec<Operand> =
                opxs.iter().map(|o| o.to_operand().expect("numeric operand")).collect();
            assert_eq!(*expected, concrete, "for input {:?}", input);
        }
        None => panic!("{} => no parse", input),
    }
}

#[test]
fn test_different_operands() {
    process_operands(
        "%111.B,(A7)",
        &vec![Operand::AbsoluteWord(7), Operand::AddressRegisterIndirect(7)],
    );
    process_operands(
        "#%111,(A7)",
        &vec![Operand::Immediate(Size::Unsized, 7), Operand::AddressRegisterIndirect(7)],
    );
    process_operands(
        "-(A0),(8,PC)",
        &vec![
            Operand::AddressRegisterIndirectWithPredecrement(0),
            Operand::PcWithDisplacement(8),
        ],
    );
    process_operands(
        "D0,D1,D2,D3,D4",
        &(0..5).map(|i| Operand::DataRegisterDirect(i)).collect::<Vec<Operand>>(),
    );
}

#[test]
fn test_status_operands() {
    process_operands(
        "sp,sr",
        &vec![Operand::AddressRegisterDirect(7), Operand::StatusRegister(Size::Word)],
    );
}

fn random_size() -> &'static str {
    match rand::random::<u8>() % 10 {
        0 => ".L",
        1 => ".l",
        2 => ".W",
        3 => ".w",
        4 => ".B",
        5 => ".b",
        _ => "",
    }
}

fn random_num() -> String {
    let num = rand::random::<i16>();
    match rand::random::<u8>() % 10 {
        0 => format!("{}", num),
        1 => format!("@{:o}", num),
        2 => format!("@{:08o}", num),
        3 => format!("%{:b}", num),
        4 => format!("%{:016b}", num),
        5 => format!("${:x}", num),
        6 => format!("${:X}", num),
        7 => format!("${:08x}", num),
        8 => format!("${:08X}", num),
        _ => format!("${:x}", num),
    }
}

const MAX_OPERAND_VARIANTS: u8 = 24;

fn operand(id: u8, first: bool) -> String {
    let op = match id {
        1 => "?Dx".to_string(),
        2 => "?Ax".to_string(),
        3 => "?(Ax)".to_string(),
        4 => "?(Ax)+".to_string(),
        5 => "?-(Ax)".to_string(),
        6 => "?(z,Ax)".to_string(),
        7 => "?(z,Ax,Dy)".to_string(),
        8 => "?(z,Ax,Ay)".to_string(),
        9 => format!("?z{}", random_size()),
        10 => "?(z,PC)".to_string(),
        11 => "?(z,PC,Dy)".to_string(),
        12 => "?(z,PC,Ay)".to_string(),
        13 => format!("?#z{}", random_size()),
        14 => "?SP".to_string(),
        15 => "?(SP)".to_string(),
        16 => "?(SP)+".to_string(),
        17 => "?-(SP)".to_string(),
        18 => "?(z,SP)".to_string(),
        19 => "?(z,SP,Dy)".to_string(),
        20 => "?(z,SP,SP)".to_string(),
        21 => "?(z,PC,SP)".to_string(),
        22 => "?SR".to_string(),
        23 => "?CCR".to_string(),
        _ => "?#z".to_string(),
    };
    op.replace("?", if first { " " } else { "," })
        .replace("x", (rand::random::<u8>() % 8).to_string().as_str())
        .replace("y", (rand::random::<u8>() % 8).to_string().as_str())
        .replace("z", random_num().as_str())
}

#[test]
fn test_random_operand() {
    for o1 in 1..MAX_OPERAND_VARIANTS {
        let input = format!("{}", operand(o1, true));
        let trimmed = input.trim();
        match parse_operand(trimmed, 0) {
            Some((_, pos)) if pos == chars_len(trimmed) => {}
            other => panic!("{} => {:?}", trimmed, other),
        }
    }
}

#[test]
fn test_random_operands() {
    for o1 in 1..MAX_OPERAND_VARIANTS {
        for o2 in 1..MAX_OPERAND_VARIANTS {
            let input = format!("{}{}", operand(o1, true), operand(o2, false));
            let trimmed = input.trim();
            match parse_operands(trimmed, 0) {
                Some((_, pos)) if pos == chars_len(trimmed) => {}
                other => panic!("{} => {:?}", trimmed, other),
            }
        }
    }
}

fn parse_with(input: &str, mnemonic_with_size: &str, ops: u8, label: bool) {
    match parse_statement(input) {
        Ok(Statement { label: got_label, body: Body::Instruction(ie) }) => {
            assert_eq!(label, got_label.is_some(), "label presence for {:?}", input);
            let suffix = match ie.size {
                Size::Unsized => "",
                Size::Byte => ".B",
                Size::Word => ".W",
                Size::Long => ".L",
            };
            let rebuilt = format!("{}{}", ie.mnemonic, suffix);
            assert!(
                rebuilt.eq_ignore_ascii_case(mnemonic_with_size),
                "mnemonic {:?} vs {:?} for {:?}",
                rebuilt,
                mnemonic_with_size,
                input
            );
            assert_eq!(ops as usize, ie.operands.len(), "operand count for {:?}", input);
        }
        other => panic!("{} => {:?}", input, other),
    }
}

fn parse_ops(mnemonic: &str, ops: u8, op1: &str, op2: &str) {
    let with_space = format!(" {}{}{}", mnemonic, op1, op2);
    parse_with(with_space.as_str(), mnemonic, ops, false);
    let with_label = format!("label: {}{}{}", mnemonic, op1, op2);
    parse_with(with_label.as_str(), mnemonic, ops, true);
    let with_comment = format!(" {}{}{};or a comment", mnemonic, op1, op2);
    parse_with(with_comment.as_str(), mnemonic, ops, false);
    let with_both = format!("label: {}{}{} ;and a comment", mnemonic, op1, op2);
    parse_with(with_both.as_str(), mnemonic, ops, true);
}

fn parse(mnemonic: &str, ops: u8) {
    let mut mnemonic = mnemonic.to_string();
    mnemonic.push_str(random_size());
    let mnemonic = mnemonic.as_str();
    match ops {
        0 => parse_ops(mnemonic, ops, "", ""),
        1 => {
            for o1 in 1..MAX_OPERAND_VARIANTS {
                parse_ops(mnemonic, ops, operand(o1, true).as_str(), "");
            }
        }
        _ => {
            for o1 in 1..MAX_OPERAND_VARIANTS {
                for o2 in 1..MAX_OPERAND_VARIANTS {
                    parse_ops(mnemonic, ops, operand(o1, true).as_str(), operand(o2, false).as_str());
                }
            }
        }
    }
}

#[test]
fn test_zero_operands() {
    parse("ZERO", 0);
}

#[test]
fn test_one_operand() {
    parse("ONE", 1);
}

#[test]
fn test_two_operands() {
    parse("TWO", 2);
}

fn process_instruction(input: &str, expected: &OpcodeInstance) {
    match parse_statement(input) {
        Ok(Statement { body: Body::Instruction(ie), .. }) => {
            let inst = ie.to_instance().expect("numeric operands");
            assert_eq!(*expected, inst, "for input {:?}", input);
        }
        other => panic!("{} => {:?}", input, other),
    }
}

#[test]
fn test_instruction() {
    process_instruction(
        "  ADDI.B\t#$1F,D0",
        &OpcodeInstance {
            mnemonic: "ADDI".to_string(),
            size: Size::Byte,
            operands: vec![Operand::Immediate(Size::Unsized, 31), Operand::DataRegisterDirect(0)],
        },
    );
    process_instruction(
        "  ADD #%111,(A7)",
        &OpcodeInstance {
            mnemonic: "ADD".to_string(),
            size: Size::Unsized,
            operands: vec![
                Operand::Immediate(Size::Unsized, 7),
                Operand::AddressRegisterIndirect(7),
            ],
        },
    );
    process_instruction(
        "  MUL.L\t-( A0 ), ( 8 , PC )",
        &OpcodeInstance {
            mnemonic: "MUL".to_string(),
            size: Size::Long,
            operands: vec![
                Operand::AddressRegisterIndirectWithPredecrement(0),
                Operand::PcWithDisplacement(8),
            ],
        },
    );
    process_instruction(
        "  WARPSPEED.B D0,D1,D2,D3,D4",
        &OpcodeInstance {
            mnemonic: "WARPSPEED".to_string(),
            size: Size::Byte,
            operands: (0..5).map(|i| Operand::DataRegisterDirect(i)).collect::<Vec<Operand>>(),
        },
    );
}

fn process_statement(input: &str) {
    match parse_statement(input) {
        Ok(_) => {}
        Err(e) => panic!("{} => {:?}", input, e),
    }
}

#[test]
fn just_a_comment() {
    process_statement(";just a comment");
    process_statement("; just a comment");
    process_statement(" ; just a comment ");
}

#[test]
fn just_whitespace() {
    process_statement("");
    process_statement(" \t ");
}

#[test]
fn just_strange() {
    process_statement("             subq    #1,d0   ");
}

#[test]
fn just_a_label_possibly_with_comment() {
    process_statement("lab_101:");
    process_statement("lab_102");
    process_statement(" lab_103:");
    process_statement(" lab_104: ");
    process_statement("lab_105 ");
    process_statement(".lab_101:");
    process_statement(".lab_102");
    process_statement(" .lab_103:");
    process_statement(" .lab_104: ");
    process_statement(".lab_105 ");
    process_statement("LAB_101: \t ; just a comment ");
    process_statement("LAB_102 \t ; just a comment ");
    process_statement(" LAB_103: \t ; just a comment ");
    process_statement(" LAB_104:  \t ; just a comment ");
    process_statement("LAB_105  \t ; just a comment ");
    process_statement(".LAB_101: \t ; just a comment ");
    process_statement(".LAB_102 \t ; just a comment ");
    process_statement(" .LAB_103: \t ; just a comment ");
    process_statement(" .LAB_104:  \t ; just a comment ");
    process_statement(".LAB_105  \t ; just a comment ");
}

#[test]
fn process_whitespaces() {
    let input = " \t ";
    match parse_statement(input) {
        Ok(Statement { label: None, body: Body::Empty }) => {}
        other => panic!("{} => {:?}", input, other),
    }
}

#[test]
fn symbolic_expr_evaluates_to_none() {
    // loop * (5 + 4)
    let res = Expr::Mul(
        Box::new(Expr::Sym("loop".to_owned())),
        Box::new(Expr::Add(Box::new(Expr::Num(5)), Box::new(Expr::Num(4)))),
    );
    let evaluated = res.eval();
    println!("{:?} = {:?}", res, evaluated);
    assert_eq!(None, evaluated);
}

#[test]
fn nonsymbolic_expr_evaluates_to_some() {
    // 11 * (5 + 4)
    let res = Expr::Mul(
        Box::new(Expr::Num(11)),
        Box::new(Expr::Add(Box::new(Expr::Num(5)), Box::new(Expr::Num(4)))),
    );
    let evaluated = res.eval();
    println!("{:?} = {:?}", res, evaluated);
    assert_eq!(Some(99), evaluated);
}

#[test]
fn symbolic_expr_can_be_resolve_with_other_symbol_and_remains_symbolic() {
    // loop * (5 + 4)
    let res = Expr::Mul(
        Box::new(Expr::Sym("loop".to_owned())),
        Box::new(Expr::Add(Box::new(Expr::Num(5)), Box::new(Expr::Num(4)))),
    );
    let resolved = res.resolve("other", 42);
    let evaluated = resolved.eval();
    println!("{:?} => {:?} = {:?}", res, resolved, evaluated);
    let expected = Expr::Mul(Box::new(Expr::Sym("loop".to_owned())), Box::new(Expr::Num(9)));
    assert_eq!(expected, resolved);
    assert_eq!(None, evaluated);
}

#[test]
fn symbolic_expr_can_be_resolved_and_becomes_nonsymbolic() {
    // (5 + loop) * 11
    let res = Expr::Mul(
        Box::new(Expr::Add(Box::new(Expr::Num(5)), Box::new(Expr::Sym("loop".to_owned())))),
        Box::new(Expr::Num(11)),
    );
    let resolved = res.resolve("loop", 4);
    let evaluated = resolved.eval();
    println!("{:?} => {:?} = {:?}", res, resolved, evaluated);
    assert_eq!(Some(99), evaluated);
    assert_eq!(Expr::Num(99), resolved);
}

fn process_expression(input: &str, expected: Expr) {
    match parse_expression(input, 0, true) {
        Some((result, pos)) => {
            assert_eq!(pos, chars_len(input), "expression did not consume all of {:?}", input);
            assert_eq!(expected, result);
            println!("{} => {:?}", input, result);
        }
        None => panic!("{} => no parse", input),
    }
}

#[test]
fn complement_symbol() {
    let input = "1 + ~length";
    let expected = Expr::Add(
        Box::new(Expr::Num(1)),
        Box::new(Expr::Cpl(Box::new(Expr::Sym("length".to_owned())))),
    );
    process_expression(input, expected);
}

#[test]
fn complement_symbol_first() {
    let input = "~length";
    let expected = Expr::Cpl(Box::new(Expr::Sym("length".to_owned())));
    process_expression(input, expected);
}

#[test]
fn complement_number() {
    let input = "1 + ~42";
    let expected =
        Expr::Add(Box::new(Expr::Num(1)), Box::new(Expr::Cpl(Box::new(Expr::Num(42)))));
    process_expression(input, expected);
}

#[test]
fn negate_symbol() {
    let input = "1 + -length";
    let expected = Expr::Add(
        Box::new(Expr::Num(1)),
        Box::new(Expr::Neg(Box::new(Expr::Sym("length".to_owned())))),
    );
    process_expression(input, expected);
}

#[test]
fn complement_expression() {
    let input = "~(1 + 2)";
    let expected =
        Expr::Cpl(Box::new(Expr::Add(Box::new(Expr::Num(1)), Box::new(Expr::Num(2)))));
    process_expression(input, expected);
}

#[test]
fn negate_expression() {
    let input = "-(1 + 2)";
    let expected =
        Expr::Neg(Box::new(Expr::Add(Box::new(Expr::Num(1)), Box::new(Expr::Num(2)))));
    process_expression(input, expected);
}

#[test]
fn compound_expressions() {
    let input = "40>>2 & (-11 + length<<2)/2";
    let expected = Expr::Div(
        Box::new(Expr::And(
            Box::new(Expr::Shr(Box::new(Expr::Num(40)), Box::new(Expr::Num(2)))),
            Box::new(Expr::Add(
                Box::new(Expr::Neg(Box::new(Expr::Num(11)))),
                Box::new(Expr::Shl(
                    Box::new(Expr::Sym("length".to_owned())),
                    Box::new(Expr::Num(2)),
                )),
            )),
        )),
        Box::new(Expr::Num(2)),
    );
    process_expression(input, expected);
}

fn calculate(input: &str, expected: i32) {
    match parse_expression(input, 0, true) {
        Some((result, _)) => match result.eval() {
            Some(actual) => {
                if expected != actual {
                    panic!("{} => {} but expected {}", input, actual, expected);
                }
            }
            None => panic!("{} => None but expected {}", input, expected),
        },
        None => panic!("{} => no parse", input),
    }
}

#[test]
fn expression_results_seem_correct() {
    calculate("1+2", 3);
    calculate("-10", -10);
    calculate("-1+2", 1);
    calculate("1+-2", -1);
    calculate("1+2*3", 7);
    calculate("1-2", -1);
    calculate("1-2*3", -5);
    calculate("2*3", 6);
    calculate("2*3-1", 5);
    calculate("6/3", 2);
    calculate("6/3+1", 3);
    calculate("6/(3+1)", 1);
    calculate("6%4", 2);
    calculate("6%4*8/2", 8);
    calculate("6%%100", 2); // 6 mod binary 4
    calculate("%111&%101", 0b101);
    calculate("%110|%011", 0b111);
    calculate("%110^%011", 0b101);
    calculate("%110<<1", 0b1100);
    calculate("2*$c+%110<<1", 36);
    calculate("%110>>1", 0b11);
    calculate("~%1101", !13);
    calculate("-%1101", -13);
}

fn process_directive(input: &str, expected: Directive) {
    match parse_statement(input) {
        Ok(Statement { body: Body::Directive(d), .. }) => {
            assert_eq!(expected, d, "for input {:?}", input);
        }
        other => panic!("{} => {:?}", input, other),
    }
}

#[test]
fn directive_parsing() {
    // declaration
    let meaning = Expr::Mul(
        Box::new(Expr::Num(42)),
        Box::new(Expr::And(
            Box::new(Expr::Sym("life".to_owned())),
            Box::new(Expr::Sym("universe".to_owned())),
        )),
    );
    process_directive("answer  equ 42 * life & universe", Directive::Declare(meaning.clone()));
    process_directive("answer  .equ 42 * life & universe", Directive::Declare(meaning.clone()));
    process_directive("answer = 42 * life & universe", Directive::Declare(meaning.clone()));

    process_directive(" align 4", Directive::Alignment(Expr::Num(4)));
    process_directive(
        " dc.b $A,$B,$C,'STUFF'",
        Directive::DefineConstants(
            Size::Byte,
            vec![
                Expr::Num(0xA),
                Expr::Num(0xB),
                Expr::Num(0xC),
                Expr::Str("\'STUFF\'".to_owned()),
            ],
        ),
    );
    process_directive(
        "lab: dcb.w $1000",
        Directive::DefineConstantBlock(Size::Word, Expr::Num(0x1000), Expr::Num(0)),
    );
    process_directive(
        "lab: dcb.w $1000,$FFFF",
        Directive::DefineConstantBlock(Size::Word, Expr::Num(0x1000), Expr::Num(0xFFFF)),
    );
    process_directive(
        "lab ds.l $1000",
        Directive::DefineConstantBlock(Size::Long, Expr::Num(0x1000), Expr::Num(0)),
    );
    process_directive("lab end", Directive::End(Expr::Num(0)));
    process_directive("lab end start", Directive::End(Expr::Sym("start".to_owned())));
    process_directive(" lab: even", Directive::Alignment(Expr::Num(1)));
    process_directive(" odd", Directive::Alignment(Expr::Num(0)));
    process_directive(" offset 0", Directive::Offset(Expr::Num(0)));
    process_directive(" org $2000", Directive::Origin(Expr::Num(0x2000)));
}

#[test]
fn declaration_carries_its_name_as_label() {
    match parse_statement("answer equ 42 * life & universe") {
        Ok(Statement { label: Some(name), body: Body::Directive(Directive::Declare(_)) }) => {
            assert_eq!("answer", name);
        }
        other => panic!("unexpected {:?}", other),
    }
}

#[test]
fn random_text_reaches_a_fixed_point() {
    // any two random operand templates, fed through parse and format,
    // print the same text on every later round trip
    for o1 in 1..MAX_OPERAND_VARIANTS {
        for o2 in 1..MAX_OPERAND_VARIANTS {
            let line = format!(" MOVE{}{}", operand(o1, true), operand(o2, false));
            let inst = match parse_statement(line.as_str()) {
                Ok(Statement { body: Body::Instruction(ie), .. }) => {
                    ie.to_instance().expect("numeric operands")
                }
                other => panic!("{} => {:?}", line, other),
            };
            let text1 = format!(" {}", inst.to_text());
            let inst2 = match parse_statement(text1.as_str()) {
                Ok(Statement { body: Body::Instruction(ie), .. }) => {
                    ie.to_instance().expect("numeric operands")
                }
                other => panic!("{} => {:?}", text1, other),
            };
            let text2 = format!(" {}", inst2.to_text());
            assert_eq!(text1, text2, "for source {:?}", line);
        }
    }
}
