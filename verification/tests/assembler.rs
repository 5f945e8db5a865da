use asm8051::lexer::{Instruction, LexerContext};
use asm8051::parser::{AsmError, IPContext};

fn assemble(src: &str) -> Result<Vec<u8>, AsmError> {
    let mut lc = LexerContext::new(src.to_string());
    lc.run();
    let mut pc = IPContext::new(lc.dt);
    pc.run()?;
    Ok(pc.cg)
}

#[test]
fn lexer_shapes() {
    let mut lc = LexerContext::new("mov a, b\n\njunkline\nl1:\nend\nmov a, r0\n".to_string());
    lc.run();
    assert_eq!(lc.dt.len(), 3);
    match &lc.dt[0] {
        Instruction::TwoArg { name, op1, op2, line } => {
            assert_eq!(name, "mov");
            assert_eq!(op1, "a");
            assert_eq!(op2, "b");
            assert_eq!(*line, 1);
        }
        _ => panic!("expected a two-operand instruction"),
    }
    match &lc.dt[1] {
        Instruction::Label { name, line } => {
            assert_eq!(name, "l1");
            assert_eq!(*line, 4);
        }
        _ => panic!("expected a label"),
    }
    match &lc.dt[2] {
        Instruction::End { line } => assert_eq!(*line, 5),
        _ => panic!("expected the end marker"),
    }
}

#[test]
fn lexer_trims_operands_and_strips_cr() {
    let mut lc = LexerContext::new("mov  a ,  r1\r\nend\r\n".to_string());
    lc.run();
    match &lc.dt[0] {
        Instruction::TwoArg { name, op1, op2, .. } => {
            assert_eq!(name, "mov");
            // The first space splits the mnemonic; commas split operands.
            assert_eq!(op1, "a");
            assert_eq!(op2, "r1");
        }
        _ => panic!("expected a two-operand instruction"),
    }
}

#[test]
fn lexer_stops_at_end_line() {
    let mut lc = LexerContext::new("end\nl1:\nmov a, b\n".to_string());
    lc.run();
    assert_eq!(lc.dt.len(), 1);
    assert!(matches!(lc.dt[0], Instruction::End { line: 1 }));
}

#[test]
fn forward_sjmp_patches_to_zero_offset() {
    // `sjmp l1` at offset 0, `l1:` right after the two-byte jump: the
    // relative byte is 2 - (0 + 2) = 0.
    let cg = assemble("sjmp l1\nl1:\nend\n").unwrap();
    assert_eq!(cg, vec![0x28, 0x00, 0x00]);
}

#[test]
fn backward_sjmp_encodes_twos_complement() {
    // `l0:` at offset 0, `sjmp l0` at offset 5: 0 - (5 + 2) = -7 -> 0xF9.
    let cg = assemble("l0:\norg 5\nsjmp l0\nend\n").unwrap();
    assert_eq!(cg, vec![0x00, 0x00, 0x00, 0x00, 0x00, 0x28, 0xf9, 0x00]);
}

#[test]
fn sjmp_dollar_jumps_to_itself() {
    let cg = assemble("sjmp $\nend\n").unwrap();
    assert_eq!(cg, vec![0x28, 0xfe, 0x00]);
}

#[test]
fn ljmp_forward_patches_both_bytes_big_endian() {
    // The target resolves to 0x0105: patched bytes are 01 05.
    let cg = assemble("ljmp l1\norg 105H\nl1:\nend\n").unwrap();
    assert_eq!(cg.len(), 0x106);
    assert_eq!(cg[0], 0x29);
    assert_eq!(cg[1], 0x01);
    assert_eq!(cg[2], 0x05);
    assert_eq!(cg[0x105], 0x00);
}

#[test]
fn ljmp_immediate_is_sixteen_bit() {
    let cg = assemble("ljmp #300H\nend\n").unwrap();
    assert_eq!(cg, vec![0x29, 0x03, 0x00, 0x00]);
}

#[test]
fn mov_and_add_forms_encode_per_table() {
    let cg = assemble(
        "mov r0, #12H\nmov r1, #34H\nmov a, r0\nadd a, r1\nmov b, a\nmov a, b\nadd a, #1\nend\n",
    )
    .unwrap();
    assert_eq!(
        cg,
        vec![0x74, 0x12, 0x75, 0x34, 0x84, 0x53, 0xa7, 0xa6, 0x50, 0x01, 0x00]
    );
}

#[test]
fn one_byte_mov_advances_pc_by_its_width() {
    // A register-register mov is one byte, so a label after it sits at
    // offset 3, not 4.
    let cg = assemble("mov r0, #5\nmov a, r0\nl1:\nsjmp l1\nend\n").unwrap();
    assert_eq!(cg, vec![0x74, 0x05, 0x84, 0x28, 0xfe, 0x00]);
}

#[test]
fn mnemonics_are_case_insensitive() {
    let cg = assemble("MOV A, #5\nSJMP l1\nl1:\nEND\n").unwrap();
    // `END` is a mnemonic line, not the lexer's literal `end`; it is
    // skipped as unknown, so only the mov and the jump are emitted.
    assert_eq!(cg, vec![0x8c, 0x05, 0x28, 0x00]);
}

#[test]
fn mov_a_a_is_rejected() {
    let r = assemble("mov a, a\nend\n");
    assert!(matches!(r, Err(AsmError::InvalidOperands { line: 1 })));
}

#[test]
fn mov_b_b_is_rejected() {
    let r = assemble("mov b, b\nend\n");
    assert!(matches!(r, Err(AsmError::InvalidOperands { line: 1 })));
}

#[test]
fn mov_label_operands_are_rejected() {
    let r = assemble("mov somewhere, a\nend\n");
    assert!(matches!(r, Err(AsmError::UnsupportedOperands { line: 1 })));
    let r = assemble("mov a, somewhere\nend\n");
    assert!(matches!(r, Err(AsmError::UnsupportedOperands { line: 1 })));
}

#[test]
fn add_destination_must_be_accumulator() {
    let r = assemble("add b, a\nend\n");
    assert!(matches!(r, Err(AsmError::InvalidOperands { line: 1 })));
}

#[test]
fn negative_immediate_is_rejected() {
    let r = assemble("mov a, #-1\nend\n");
    assert!(matches!(r, Err(AsmError::NegativeNumber { line: 1 })));
}

#[test]
fn malformed_immediate_is_rejected() {
    let r = assemble("mov a, #xyz\nend\n");
    assert!(matches!(r, Err(AsmError::MalformedNumber { line: 1 })));
}

#[test]
fn org_backward_is_rejected() {
    let r = assemble("org 4\norg 2\nend\n");
    assert!(matches!(r, Err(AsmError::OrgBackward { line: 2 })));
}

#[test]
fn undeclared_label_is_fatal_at_patch_time() {
    let r = assemble("sjmp nowhere\nend\n");
    match r {
        Err(AsmError::UndefinedLabel { name }) => assert_eq!(name, "nowhere"),
        _ => panic!("expected an undefined-label error"),
    }
}

#[test]
fn unknown_mnemonics_are_skipped() {
    let cg = assemble("nop a\nfrob a, b\nmov a, #1\nend\n").unwrap();
    assert_eq!(cg, vec![0x8c, 0x01, 0x00]);
}

#[test]
fn label_redeclaration_overwrites() {
    // The second declaration of `l` wins: the jump goes to offset 4.
    let cg = assemble("l:\nmov a, #1\nl:\nsjmp l\nend\n").unwrap();
    assert_eq!(cg, vec![0x8c, 0x01, 0x28, 0xfe, 0x00]);
}

#[test]
fn parse_address_resolves_labels_immediates_and_futures() {
    let mut lc = LexerContext::new("l1:\nend\n".to_string());
    lc.run();
    let mut pc = IPContext::new(lc.dt);
    pc.run().unwrap();

    let mut fa = String::new();
    assert_eq!(pc.parse_address("l1", &mut fa), Ok(0));
    assert!(fa.is_empty());
    assert_eq!(pc.parse_address("#0FH", &mut fa), Ok(15));
    assert!(fa.is_empty());
    assert_eq!(pc.parse_address("later", &mut fa), Ok(0));
    assert_eq!(fa, "later");

    let mut fa16 = String::new();
    assert_eq!(pc.parse_address_16("l1", &mut fa16), Ok(0));
    assert_eq!(pc.parse_address_16("#300H", &mut fa16), Ok(0x300));
    assert!(fa16.is_empty());
    assert_eq!(pc.parse_address_16("elsewhere", &mut fa16), Ok(0));
    assert_eq!(fa16, "elsewhere");
}

#[test]
fn org_to_current_position_pads_nothing() {
    let cg = assemble("mov a, #1\norg 2\nmov a, #2\nend\n").unwrap();
    assert_eq!(cg, vec![0x8c, 0x01, 0x8c, 0x02, 0x00]);
}

#[test]
fn org_pads_with_zero_bytes() {
    let cg = assemble("org 3\nend\n").unwrap();
    assert_eq!(cg, vec![0x00, 0x00, 0x00, 0x00]);
}

#[test]
fn sjmp_immediate_operand_is_a_target_address() {
    // `sjmp #5` treats the immediate as the target: 5 - (0 + 2) = 3.
    let cg = assemble("sjmp #5\nend\n").unwrap();
    assert_eq!(cg, vec![0x28, 0x03, 0x00]);
}

#[test]
fn labels_hold_future_references_of_both_widths() {
    let cg = assemble("sjmp l1\nljmp l1\nl1:\nend\n").unwrap();
    // sjmp at 0 (rel byte: 5 - 2 = 3), ljmp at 2 (absolute 0x0005).
    assert_eq!(cg, vec![0x28, 0x03, 0x29, 0x00, 0x05, 0x00]);
}
