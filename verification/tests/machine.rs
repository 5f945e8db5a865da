use asm8051::codegen;
use asm8051::emulator::Emulator;
use asm8051::engine::{AsmContext, RunStatus};
use asm8051::lexer::LexerContext;
use asm8051::parser::IPContext;
use asm8051::psw::{Psw, PswFlag};
use asm8051::ram::Ram;
use asm8051::regs::{Register16, Register8};

fn assemble(src: &str) -> Vec<u8> {
    let mut lc = LexerContext::new(src.to_string());
    lc.run();
    let mut pc = IPContext::new(lc.dt);
    pc.run().unwrap();
    pc.cg
}

fn run_program(bytes: Vec<u8>) -> (AsmContext, RunStatus) {
    let mut em = Emulator::new();
    em.burn(bytes);
    let mut ctx = AsmContext::new(em);
    let status = ctx.run(10_000);
    (ctx, status)
}

#[test]
fn fresh_machine_state() {
    let em = Emulator::new();
    assert_eq!(em.reg.a.get(), 0);
    assert_eq!(em.reg.b.get(), 0);
    assert_eq!(em.reg.dptr.get(), 0);
    assert_eq!(em.reg.pc.get(), 0);
    assert_eq!(em.reg.sp.get(), 0x07);
    assert_eq!(em.psw.get(), 0);
    assert_eq!(em.ram.read(0), 0);
    assert_eq!(em.ram.read(127), 0);
    assert!(em.rom.is_empty());
}

#[test]
fn register8_bits() {
    let mut r = Register8::new();
    r.set_bit(3, true);
    assert!(r.get_bit(3));
    assert!(!r.get_bit(2));
    assert_eq!(r.get(), 0x08);
    r.set_bit(3, false);
    assert_eq!(r.get(), 0);
    r.set(0xa5);
    assert!(r.get_bit(0));
    assert!(!r.get_bit(1));
    assert!(r.get_bit(7));
}

#[test]
fn register16_bits() {
    let mut r = Register16::new();
    r.set_bit(15, true);
    assert_eq!(r.get(), 0x8000);
    assert!(r.get_bit(15));
    r.set_bit(15, false);
    r.set_bit(0, true);
    assert_eq!(r.get(), 1);
    r.set(0x1234);
    assert_eq!(r.get(), 0x1234);
}

#[test]
fn psw_flags() {
    let mut p = Psw::new();
    p.set_flag(PswFlag::CY, true);
    assert_eq!(p.get(), 0x80);
    assert!(p.get_flag(PswFlag::CY));
    assert!(!p.get_flag(PswFlag::P));
    p.set_flag(PswFlag::RS0, true);
    assert_eq!(p.get(), 0x88);
    p.set_flag(PswFlag::CY, false);
    assert_eq!(p.get(), 0x08);
    p.set(0x10);
    assert!(p.get_flag(PswFlag::RS1));
    assert!(!p.get_flag(PswFlag::RS0));
}

#[test]
fn ram_read_write() {
    let mut ram = Ram::new();
    assert_eq!(ram.read(42), 0);
    ram.write(42, 0xab);
    assert_eq!(ram.read(42), 0xab);
    assert_eq!(ram.read(41), 0);
}

#[test]
fn round_trip_mov_add() {
    // Assemble a small program, then execute it: the machine ends in the
    // state the instruction semantics dictate.
    let cg = assemble("mov r0, #12H\nmov r1, #34H\nmov a, r0\nadd a, r1\nend\n");
    assert_eq!(cg, vec![0x74, 0x12, 0x75, 0x34, 0x84, 0x53, 0x00]);
    let (ctx, status) = run_program(cg);
    assert_eq!(status, RunStatus::Halted);
    assert_eq!(ctx.em.ram.read(0), 0x12);
    assert_eq!(ctx.em.ram.read(1), 0x34);
    assert_eq!(ctx.em.reg.a.get(), 0x46);
    assert_eq!(ctx.em.reg.pc.get(), 6);
}

#[test]
fn bank_select_redirects_register_writes() {
    // RS1:RS0 = 01 selects the bank at 0x08: `mov R0, #12H` writes to
    // RAM address 0x08, not 0x00.
    let mut em = Emulator::new();
    em.psw.set_flag(PswFlag::RS0, true);
    let mut bytes = codegen::mov_rn_data(0, 0x12);
    bytes.push(0x00);
    em.burn(bytes);
    let mut ctx = AsmContext::new(em);
    let status = ctx.run(10);
    assert_eq!(status, RunStatus::Halted);
    assert_eq!(ctx.em.ram.read(0x08), 0x12);
    assert_eq!(ctx.em.ram.read(0x00), 0x00);
}

#[test]
fn bank_three_lives_at_0x18() {
    let mut em = Emulator::new();
    em.psw.set_flag(PswFlag::RS0, true);
    em.psw.set_flag(PswFlag::RS1, true);
    let mut bytes = codegen::mov_rn_data(7, 0x99);
    bytes.push(0x00);
    em.burn(bytes);
    let mut ctx = AsmContext::new(em);
    assert_eq!(ctx.run(10), RunStatus::Halted);
    assert_eq!(ctx.em.ram.read(0x18 + 7), 0x99);
}

#[test]
fn halt_leaves_pc_on_end_byte() {
    // The end opcode halts at once, whatever follows in the buffer.
    let (ctx, status) = run_program(vec![0x00, 0x74, 0x12]);
    assert_eq!(status, RunStatus::Halted);
    assert_eq!(ctx.em.reg.pc.get(), 0);
    assert_eq!(ctx.em.ram.read(0), 0);

    let (ctx, status) = run_program(vec![0x8c, 0x07, 0x00, 0xff, 0xff]);
    assert_eq!(status, RunStatus::Halted);
    assert_eq!(ctx.em.reg.pc.get(), 2);
    assert_eq!(ctx.em.reg.a.get(), 7);
}

#[test]
fn unknown_opcode_is_a_no_op() {
    let (ctx, status) = run_program(vec![0xff, 0x00]);
    assert_eq!(status, RunStatus::Halted);
    assert_eq!(ctx.em.reg.pc.get(), 1);
}

#[test]
fn addition_wraps_at_eight_bits() {
    let cg = assemble("mov a, #0FFH\nadd a, #2\nend\n");
    let (ctx, status) = run_program(cg);
    assert_eq!(status, RunStatus::Halted);
    assert_eq!(ctx.em.reg.a.get(), 1);
}

#[test]
fn sjmp_skips_backward_and_forward() {
    // Jump over a mov, then loop on a backward jump until fuel runs out.
    let cg = assemble("sjmp l1\nmov a, #1\nl1:\nmov a, #2\nend\n");
    let (ctx, status) = run_program(cg);
    assert_eq!(status, RunStatus::Halted);
    assert_eq!(ctx.em.reg.a.get(), 2);

    let cg = assemble("l0:\nsjmp l0\nend\n");
    let (_, status) = run_program(cg);
    assert_eq!(status, RunStatus::OutOfFuel);
}

#[test]
fn ljmp_lands_on_its_absolute_target() {
    let cg = assemble("ljmp l1\nmov a, #1\nl1:\nmov a, #5\nend\n");
    assert_eq!(cg, vec![0x29, 0x00, 0x05, 0x8c, 0x01, 0x8c, 0x05, 0x00]);
    let (ctx, status) = run_program(cg);
    assert_eq!(status, RunStatus::Halted);
    assert_eq!(ctx.em.reg.a.get(), 5);
}

#[test]
fn truncated_instruction_faults() {
    let (ctx, status) = run_program(vec![0x74]);
    assert_eq!(status, RunStatus::Fault);
    assert_eq!(ctx.em.reg.pc.get(), 0);
}

#[test]
fn running_off_the_rom_faults() {
    let (_, status) = run_program(vec![0xff]);
    assert_eq!(status, RunStatus::Fault);
}

#[test]
fn mov_between_registers_and_b() {
    // mov r0,#7; mov a,r0; mov b,a; mov r1,b; add a,b
    let cg = assemble("mov r0, #7\nmov a, r0\nmov b, a\nmov r1, b\nadd a, b\nend\n");
    let (ctx, status) = run_program(cg);
    assert_eq!(status, RunStatus::Halted);
    assert_eq!(ctx.em.ram.read(1), 7);
    assert_eq!(ctx.em.reg.b.get(), 7);
    assert_eq!(ctx.em.reg.a.get(), 14);
}

#[test]
fn add_a_a_doubles_the_accumulator() {
    let cg = assemble("mov a, #21H\nadd a, a\nend\n");
    let (ctx, status) = run_program(cg);
    assert_eq!(status, RunStatus::Halted);
    assert_eq!(ctx.em.reg.a.get(), 0x42);
}

#[test]
fn mov_r0_r0_within_decoded_range() {
    // Register-register moves decode in the narrow 0x7C..=0x7F window.
    let cg = assemble("mov r0, #9\nmov r0, r1\nend\n");
    assert_eq!(cg, vec![0x74, 0x09, 0x7d, 0x00]);
    let (ctx, status) = run_program(cg);
    assert_eq!(status, RunStatus::Halted);
    // 0x7D decodes as n = 0, m = 1: ram[0] receives ram[1].
    assert_eq!(ctx.em.ram.read(0), 0);
}
